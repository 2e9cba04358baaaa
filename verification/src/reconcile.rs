//! The reconciliation engine: given a local and a remote inventory, compute
//! the transfer plan — upload what only exists locally, download what only
//! exists remotely, skip what matches, and settle name conflicts (same name,
//! different content) deterministically by a policy.

use vstd::prelude::*;
use crate::assoc::{has_key, lookup};
use crate::fontfile::{rename_candidate, rename_candidate_spec};
use crate::inventory::Inventory;
use crate::text::str_eq;

verus! {

/// A conflict between a local and a remote file of the same name is settled
/// by one of these choices.
#[derive(Debug, Clone, Copy, PartialEq, Eq, Structural)]
pub enum ConflictResolution {
    Overwrite,
    Rename,
    Skip,
}

/// What a plan does for one name.
#[derive(Debug, Clone, Copy, PartialEq, Eq, Structural)]
pub enum SyncAction {
    Upload,
    Download,
    Skip,
}

/// One row of a reconciliation plan.
pub struct PlanEntry {
    pub name: String,
    pub action: SyncAction,
    /// How a name conflict was settled; `None` where there was none.
    pub conflict: Option<ConflictResolution>,
    /// The fresh name an upload runs under when the conflict was settled by
    /// renaming.
    pub rename_to: Option<String>,
}

pub type PlanRow = (Seq<char>, SyncAction, Option<ConflictResolution>, Option<Seq<char>>);

impl View for PlanEntry {
    type V = PlanRow;

    open spec fn view(&self) -> PlanRow {
        (
            self.name@,
            self.action,
            self.conflict,
            match self.rename_to {
                Some(ref t) => Some(t@),
                None => None,
            },
        )
    }
}

/// The conflict policy handed to `reconcile`: whether conflicts may be
/// resolved at all, and the answer collected (or scripted) for each
/// conflicting name.  A conflicting name without an answer is skipped,
/// never overwritten.
pub struct SyncPolicy {
    pub interactive: bool,
    pub answers: Vec<(String, ConflictResolution)>,
}

pub type PolicyView = (bool, Seq<(Seq<char>, ConflictResolution)>);

impl View for SyncPolicy {
    type V = PolicyView;

    open spec fn view(&self) -> PolicyView {
        (self.interactive, self.answers@.map_values(|p: (String, ConflictResolution)| (p.0@, p.1)))
    }
}

pub open spec fn answer_lookup(
    s: Seq<(Seq<char>, ConflictResolution)>,
    name: Seq<char>,
) -> Option<ConflictResolution>
    decreases s.len(),
{
    if s.len() == 0 {
        None
    } else if s.first().0 == name {
        Some(s.first().1)
    } else {
        answer_lookup(s.drop_first(), name)
    }
}

/// The answer the policy gives for a conflicting name: none at all in
/// non-interactive mode, else the recorded answer, if any.
pub open spec fn answer_for(pol: PolicyView, name: Seq<char>) -> Option<ConflictResolution> {
    if pol.0 {
        answer_lookup(pol.1, name)
    } else {
        None
    }
}

impl SyncPolicy {
    /// A policy that resolves nothing: every conflict is skipped and logged.
    pub fn non_interactive() -> (r: SyncPolicy)
        ensures
            r@.0 == false,
    {
        SyncPolicy { interactive: false, answers: Vec::new() }
    }

    /// An interactive policy with one scripted answer per conflicting name.
    pub fn interactive(answers: Vec<(String, ConflictResolution)>) -> (r: SyncPolicy)
        ensures
            r@.0 == true,
            r@.1 == answers@.map_values(|p: (String, ConflictResolution)| (p.0@, p.1)),
    {
        SyncPolicy { interactive: true, answers }
    }

    /// The recorded answer for `name`, if the policy is interactive and one
    /// was given.
    pub fn answer_for(&self, name: &str) -> (r: Option<ConflictResolution>)
        ensures
            r == answer_for(self@, name@),
    {
        if !self.interactive {
            return None;
        }
        let n = self.answers.len();
        let mut i: usize = 0;
        proof {
            assert(self@.1.skip(0) =~= self@.1);
        }
        while i < n
            invariant
                i <= n,
                n == self.answers@.len(),
                self.interactive,
                answer_lookup(self@.1, name@) == answer_lookup(self@.1.skip(i as int), name@),
            decreases n - i,
        {
            proof {
                assert(self@.1[i as int] == (self.answers@[i as int].0@, self.answers@[i as int].1));
                assert(self@.1.skip(i as int).first() == self@.1[i as int]);
                assert(self@.1.skip(i as int).drop_first() =~= self@.1.skip(i + 1));
            }
            if str_eq(self.answers[i].0.as_str(), name) {
                proof {
                    assert(answer_lookup(self@.1.skip(i as int), name@) == Some(
                        self@.1[i as int].1,
                    ));
                }
                return Some(self.answers[i].1);
            }
            i = i + 1;
        }
        proof {
            assert(self@.1.skip(n as int) =~= Seq::<(Seq<char>, ConflictResolution)>::empty());
        }
        None
    }
}

/// The decision for one conflicting name, as a pure function of the two
/// hashes and the policy's answer: matching hashes are skipped, a conflict
/// without an answer is skipped, and an answered conflict follows the
/// answer.
pub open spec fn decide_conflict_spec(
    local_hash: Seq<char>,
    remote_hash: Seq<char>,
    answer: Option<ConflictResolution>,
) -> ConflictResolution {
    if local_hash == remote_hash {
        ConflictResolution::Skip
    } else {
        match answer {
            None => ConflictResolution::Skip,
            Some(a) => a,
        }
    }
}

/// Settles one name present on both sides.
pub fn decide_conflict(
    local_hash: &str,
    remote_hash: &str,
    answer: Option<ConflictResolution>,
) -> (d: ConflictResolution)
    ensures
        d == decide_conflict_spec(local_hash@, remote_hash@, answer),
{
    if str_eq(local_hash, remote_hash) {
        ConflictResolution::Skip
    } else {
        match answer {
            None => ConflictResolution::Skip,
            Some(a) => a,
        }
    }
}

/// Conflict determinism: with hashes that differ, no answer always means
/// Skip, and a scripted answer is always followed.
pub proof fn lemma_conflict_determinism(
    a: Seq<char>,
    b: Seq<char>,
    answer: ConflictResolution,
)
    requires
        a != b,
    ensures
        decide_conflict_spec(a, b, None) == ConflictResolution::Skip,
        decide_conflict_spec(a, b, Some(answer)) == answer,
{
}

/// The first numbered rename of `name` that collides with neither
/// inventory, trying `k`, `k + 1`, ... up to `bound`.
pub open spec fn first_fresh(
    name: Seq<char>,
    l: Seq<(Seq<char>, Seq<char>)>,
    r: Seq<(Seq<char>, Seq<char>)>,
    k: nat,
    bound: nat,
) -> Option<Seq<char>>
    decreases bound + 1 - k,
{
    if k > bound {
        None
    } else {
        let cand = rename_candidate_spec(name, k);
        if !has_key(l, cand) && !has_key(r, cand) {
            Some(cand)
        } else {
            first_fresh(name, l, r, k + 1, bound)
        }
    }
}

/// The fresh name a rename resolution uses: the first numbered variant of
/// `name` free in the combined namespace.  Searching one candidate past the
/// combined size always suffices; the bound only keeps the search well
/// defined.
pub open spec fn rename_target(
    name: Seq<char>,
    l: Seq<(Seq<char>, Seq<char>)>,
    r: Seq<(Seq<char>, Seq<char>)>,
) -> Option<Seq<char>> {
    first_fresh(name, l, r, 1, (l.len() + r.len() + 1) as nat)
}

/// Whether the `k`-th numbered rename of `name` collides with either side.
pub open spec fn candidate_taken(
    name: Seq<char>,
    l: Seq<(Seq<char>, Seq<char>)>,
    r: Seq<(Seq<char>, Seq<char>)>,
    k: nat,
) -> bool {
    has_key(l, rename_candidate_spec(name, k)) || has_key(r, rename_candidate_spec(name, k))
}

proof fn lemma_first_fresh_none_all_taken(
    name: Seq<char>,
    l: Seq<(Seq<char>, Seq<char>)>,
    r: Seq<(Seq<char>, Seq<char>)>,
    k: nat,
    bound: nat,
)
    requires
        first_fresh(name, l, r, k, bound) is None,
    ensures
        forall|j: nat| k <= j <= bound ==> #[trigger] candidate_taken(name, l, r, j),
    decreases bound + 1 - k,
{
    if k > bound {
    } else {
        assert(candidate_taken(name, l, r, k));
        lemma_first_fresh_none_all_taken(name, l, r, k + 1, bound);
    }
}

/// A name standing in a keyed sequence stands in its sequence of keys.
proof fn lemma_has_key_in_keys(s: Seq<(Seq<char>, Seq<char>)>, key: Seq<char>)
    requires
        has_key(s, key),
    ensures
        s.map_values(|e: (Seq<char>, Seq<char>)| e.0).contains(key),
{
    crate::assoc::lemma_found_index_exists(s, key);
    let j = choose|j: int|
        0 <= j < s.len() && (#[trigger] s[j]).0 == key && forall|i: int|
            0 <= i < j ==> (#[trigger] s[i]).0 != key;
    assert(s.map_values(|e: (Seq<char>, Seq<char>)| e.0)[j] == key);
}

/// The bounded search never misses: one candidate more than the combined
/// number of entries always suffices, since distinct counters give
/// distinct names and the two sides carry only finitely many names.
pub proof fn lemma_rename_target_exists(
    name: Seq<char>,
    l: Seq<(Seq<char>, Seq<char>)>,
    r: Seq<(Seq<char>, Seq<char>)>,
)
    ensures
        rename_target(name, l, r) is Some,
{
    broadcast use vstd::seq_lib::seq_to_set_is_finite;
    broadcast use vstd::set::group_set_axioms;

    let bound = (l.len() + r.len() + 1) as nat;
    if first_fresh(name, l, r, 1, bound) is None {
        lemma_first_fresh_none_all_taken(name, l, r, 1, bound);
        let cs = Seq::new(bound, |i: int| rename_candidate_spec(name, (i + 1) as nat));
        assert(cs.no_duplicates()) by {
            assert forall|i: int, j: int| 0 <= i < j < cs.len() implies cs[i] != cs[j] by {
                if cs[i] == cs[j] {
                    crate::fontfile::lemma_rename_candidate_injective(
                        name,
                        (i + 1) as nat,
                        (j + 1) as nat,
                    );
                }
            }
        }
        cs.unique_seq_to_set();
        let lkeys = l.map_values(|e: (Seq<char>, Seq<char>)| e.0);
        let rkeys = r.map_values(|e: (Seq<char>, Seq<char>)| e.0);
        let keys = lkeys + rkeys;
        keys.lemma_cardinality_of_set();
        assert(cs.to_set().subset_of(keys.to_set())) by {
            assert forall|x: Seq<char>| cs.to_set().contains(x) implies keys.to_set().contains(
                x,
            ) by {
                let i = choose|i: int| 0 <= i < cs.len() && cs[i] == x;
                assert(candidate_taken(name, l, r, (i + 1) as nat));
                if has_key(l, x) {
                    lemma_has_key_in_keys(l, x);
                    let t = choose|t: int| 0 <= t < lkeys.len() && lkeys[t] == x;
                    assert(keys[t] == x);
                } else {
                    lemma_has_key_in_keys(r, x);
                    let t = choose|t: int| 0 <= t < rkeys.len() && rkeys[t] == x;
                    assert(keys[lkeys.len() + t] == x);
                }
                assert(keys.contains(x));
            }
        }
        vstd::set_lib::lemma_len_subset(cs.to_set(), keys.to_set());
        assert(cs.to_set().len() == bound);
        assert(keys.to_set().len() <= l.len() + r.len());
        assert(false);
    }
}

/// Finds the first numbered rename of `name` that no side uses.
pub fn fresh_rename_name(name: &str, local: &Inventory, remote: &Inventory) -> (r: Option<String>)
    requires
        local@.len() + remote@.len() + 1 < u64::MAX,
    ensures
        r is Some,
        match r {
            Some(t) => rename_target(name@, local@, remote@) == Some(t@) && !has_key(
                local@,
                t@,
            ) && !has_key(remote@, t@),
            None => rename_target(name@, local@, remote@) is None,
        },
{
    proof {
        lemma_rename_target_exists(name@, local@, remote@);
    }
    let bound: u64 = local.len() as u64 + remote.len() as u64 + 1;
    let mut k: u64 = 1;
    while k <= bound
        invariant
            1 <= k <= bound + 1,
            bound == local@.len() + remote@.len() + 1,
            bound < u64::MAX,
            rename_target(name@, local@, remote@) == first_fresh(
                name@,
                local@,
                remote@,
                k as nat,
                bound as nat,
            ),
        decreases bound + 1 - k,
    {
        let cand = rename_candidate(name, k);
        let taken_local = local.contains(cand.as_str());
        let taken_remote = remote.contains(cand.as_str());
        if !taken_local && !taken_remote {
            return Some(cand);
        }
        k = k + 1;
    }
    None
}


/// The plan row for a name present on both sides: matching content is
/// skipped; a conflict follows the policy's decision.  An overwrite takes
/// the remote version (a download), a rename keeps both by uploading the
/// local copy under a fresh name, and an unresolved conflict is skipped.
/// The rename search never misses (`lemma_rename_target_exists`); its
/// fallback arm only keeps this function total.
pub open spec fn shared_row(
    name: Seq<char>,
    local_hash: Seq<char>,
    remote_hash: Seq<char>,
    l: Seq<(Seq<char>, Seq<char>)>,
    r: Seq<(Seq<char>, Seq<char>)>,
    pol: PolicyView,
) -> PlanRow {
    if local_hash == remote_hash {
        (name, SyncAction::Skip, None, None)
    } else {
        match decide_conflict_spec(local_hash, remote_hash, answer_for(pol, name)) {
            ConflictResolution::Overwrite => (
                name,
                SyncAction::Download,
                Some(ConflictResolution::Overwrite),
                None,
            ),
            ConflictResolution::Rename => match rename_target(name, l, r) {
                Some(t) => (name, SyncAction::Upload, Some(ConflictResolution::Rename), Some(t)),
                None => (name, SyncAction::Skip, Some(ConflictResolution::Rename), None),
            },
            ConflictResolution::Skip => (
                name,
                SyncAction::Skip,
                Some(ConflictResolution::Skip),
                None,
            ),
        }
    }
}

/// The plan row for one local entry.
pub open spec fn local_row(
    e: (Seq<char>, Seq<char>),
    l: Seq<(Seq<char>, Seq<char>)>,
    r: Seq<(Seq<char>, Seq<char>)>,
    pol: PolicyView,
) -> PlanRow {
    match lookup(r, e.0) {
        None => (e.0, SyncAction::Upload, None, None),
        Some(rh) => shared_row(e.0, e.1, rh, l, r, pol),
    }
}

/// The plan rows contributed by the local pass, one per local entry, in
/// local order.
pub open spec fn plan_for_local(
    ls: Seq<(Seq<char>, Seq<char>)>,
    l: Seq<(Seq<char>, Seq<char>)>,
    r: Seq<(Seq<char>, Seq<char>)>,
    pol: PolicyView,
) -> Seq<PlanRow>
    decreases ls.len(),
{
    if ls.len() == 0 {
        Seq::<PlanRow>::empty()
    } else {
        seq![local_row(ls.first(), l, r, pol)] + plan_for_local(ls.drop_first(), l, r, pol)
    }
}

/// The plan rows contributed by the remote pass: a download for every name
/// only the remote side has, in remote order.
pub open spec fn plan_for_remote(
    rs: Seq<(Seq<char>, Seq<char>)>,
    l: Seq<(Seq<char>, Seq<char>)>,
) -> Seq<PlanRow>
    decreases rs.len(),
{
    if rs.len() == 0 {
        Seq::<PlanRow>::empty()
    } else if has_key(l, rs.first().0) {
        plan_for_remote(rs.drop_first(), l)
    } else {
        seq![(rs.first().0, SyncAction::Download, None::<ConflictResolution>, None::<Seq<char>>)]
            + plan_for_remote(rs.drop_first(), l)
    }
}

/// The whole plan: every local name first (upload, skip, or a settled
/// conflict), then a download for every remote-only name.
pub open spec fn reconcile_spec(
    l: Seq<(Seq<char>, Seq<char>)>,
    r: Seq<(Seq<char>, Seq<char>)>,
    pol: PolicyView,
) -> Seq<PlanRow> {
    plan_for_local(l, l, r, pol) + plan_for_remote(r, l)
}

pub open spec fn plan_view(plan: Seq<PlanEntry>) -> Seq<PlanRow> {
    plan.map_values(|e: PlanEntry| e@)
}

proof fn lemma_plan_local_snoc(
    ls: Seq<(Seq<char>, Seq<char>)>,
    e: (Seq<char>, Seq<char>),
    l: Seq<(Seq<char>, Seq<char>)>,
    r: Seq<(Seq<char>, Seq<char>)>,
    pol: PolicyView,
)
    ensures
        plan_for_local(ls.push(e), l, r, pol) == plan_for_local(ls, l, r, pol) + seq![
            local_row(e, l, r, pol),
        ],
    decreases ls.len(),
{
    if ls.len() == 0 {
        assert(ls.push(e).first() == e);
        assert(ls.push(e).drop_first() =~= ls);
        assert(plan_for_local(ls.push(e), l, r, pol) == seq![local_row(e, l, r, pol)]
            + plan_for_local(ls, l, r, pol));
        assert(plan_for_local(ls, l, r, pol) == Seq::<PlanRow>::empty());
        assert(plan_for_local(ls.push(e), l, r, pol) =~= plan_for_local(ls, l, r, pol) + seq![
            local_row(e, l, r, pol),
        ]);
    } else {
        assert(ls.push(e).first() == ls.first());
        assert(ls.push(e).drop_first() =~= ls.drop_first().push(e));
        lemma_plan_local_snoc(ls.drop_first(), e, l, r, pol);
        assert(plan_for_local(ls.push(e), l, r, pol) =~= plan_for_local(ls, l, r, pol) + seq![
            local_row(e, l, r, pol),
        ]);
    }
}

proof fn lemma_plan_remote_snoc(
    rs: Seq<(Seq<char>, Seq<char>)>,
    e: (Seq<char>, Seq<char>),
    l: Seq<(Seq<char>, Seq<char>)>,
)
    ensures
        plan_for_remote(rs.push(e), l) == plan_for_remote(rs, l) + (if has_key(l, e.0) {
            Seq::<PlanRow>::empty()
        } else {
            seq![(e.0, SyncAction::Download, None::<ConflictResolution>, None::<Seq<char>>)]
        }),
    decreases rs.len(),
{
    if rs.len() == 0 {
        assert(rs.push(e).first() == e);
        assert(rs.push(e).drop_first() =~= rs);
        assert(plan_for_remote(rs, l) == Seq::<PlanRow>::empty());
        if has_key(l, e.0) {
            assert(plan_for_remote(rs.push(e), l) == plan_for_remote(rs, l));
            assert(plan_for_remote(rs.push(e), l) =~= plan_for_remote(rs, l));
        } else {
            assert(plan_for_remote(rs.push(e), l) == seq![
                (e.0, SyncAction::Download, None::<ConflictResolution>, None::<Seq<char>>),
            ] + plan_for_remote(rs, l));
            assert(plan_for_remote(rs.push(e), l) =~= plan_for_remote(rs, l) + seq![
                (e.0, SyncAction::Download, None::<ConflictResolution>, None::<Seq<char>>),
            ]);
        }
    } else {
        assert(rs.push(e).first() == rs.first());
        assert(rs.push(e).drop_first() =~= rs.drop_first().push(e));
        lemma_plan_remote_snoc(rs.drop_first(), e, l);
        if has_key(l, e.0) {
            assert(plan_for_remote(rs.push(e), l) =~= plan_for_remote(rs, l));
        } else {
            assert(plan_for_remote(rs.push(e), l) =~= plan_for_remote(rs, l) + seq![
                (e.0, SyncAction::Download, None::<ConflictResolution>, None::<Seq<char>>),
            ]);
        }
    }
}

/// Computes the reconciliation plan for two inventories under a policy.
///
/// Determinism is inherent: the plan is a pure function of the two
/// inventories and the policy with its answers, with no dependence on any
/// hidden iteration order.
pub fn reconcile(
    local: &Inventory,
    remote: &Inventory,
    policy: &SyncPolicy,
) -> (plan: Vec<PlanEntry>)
    requires
        local@.len() + remote@.len() + 1 < u64::MAX,
    ensures
        plan_view(plan@) == reconcile_spec(local@, remote@, policy@),
{
    let mut plan: Vec<PlanEntry> = Vec::new();
    let ln = local.len();
    let mut i: usize = 0;
    while i < ln
        invariant
            i <= ln,
            ln == local@.len(),
            local@.len() + remote@.len() + 1 < u64::MAX,
            plan_view(plan@) == plan_for_local(local@.take(i as int), local@, remote@, policy@),
        decreases ln - i,
    {
        let e = local.entry(i);
        let name = e.name.clone();
        let row: PlanEntry = match remote.get(name.as_str()) {
            None => PlanEntry {
                name,
                action: SyncAction::Upload,
                conflict: None,
                rename_to: None,
            },
            Some(remote_hash) => {
                if str_eq(e.hash.as_str(), remote_hash.as_str()) {
                    PlanEntry { name, action: SyncAction::Skip, conflict: None, rename_to: None }
                } else {
                    let answer = policy.answer_for(name.as_str());
                    let decision = decide_conflict(e.hash.as_str(), remote_hash.as_str(), answer);
                    match decision {
                        ConflictResolution::Overwrite => PlanEntry {
                            name,
                            action: SyncAction::Download,
                            conflict: Some(ConflictResolution::Overwrite),
                            rename_to: None,
                        },
                        ConflictResolution::Rename => {
                            match fresh_rename_name(name.as_str(), local, remote) {
                                Some(t) => PlanEntry {
                                    name,
                                    action: SyncAction::Upload,
                                    conflict: Some(ConflictResolution::Rename),
                                    rename_to: Some(t),
                                },
                                None => PlanEntry {
                                    name,
                                    action: SyncAction::Skip,
                                    conflict: Some(ConflictResolution::Rename),
                                    rename_to: None,
                                },
                            }
                        },
                        ConflictResolution::Skip => PlanEntry {
                            name,
                            action: SyncAction::Skip,
                            conflict: Some(ConflictResolution::Skip),
                            rename_to: None,
                        },
                    }
                }
            },
        };
        proof {
            assert(row@ == local_row(local@[i as int], local@, remote@, policy@));
        }
        plan.push(row);
        proof {
            assert(local@.take(i + 1) =~= local@.take(i as int).push(local@[i as int]));
            lemma_plan_local_snoc(local@.take(i as int), local@[i as int], local@, remote@, policy@);
            assert(plan_view(plan@) =~= plan_for_local(local@.take(i + 1), local@, remote@, policy@));
        }
        i = i + 1;
    }
    proof {
        assert(local@.take(ln as int) == local@);
    }
    let rn = remote.len();
    let mut j: usize = 0;
    while j < rn
        invariant
            j <= rn,
            rn == remote@.len(),
            plan_view(plan@) == plan_for_local(local@, local@, remote@, policy@) + plan_for_remote(
                remote@.take(j as int),
                local@,
            ),
        decreases rn - j,
    {
        let e = remote.entry(j);
        let ghost prev = plan@;
        let shared = local.contains(e.name.as_str());
        if !shared {
            let row = PlanEntry {
                name: e.name.clone(),
                action: SyncAction::Download,
                conflict: None,
                rename_to: None,
            };
            proof {
                assert(row@ == (remote@[j as int].0, SyncAction::Download, None::<
                    ConflictResolution,
                >, None::<Seq<char>>));
            }
            plan.push(row);
            proof {
                assert(plan_view(plan@) =~= plan_view(prev) + seq![
                    (remote@[j as int].0, SyncAction::Download, None::<ConflictResolution>, None::<
                        Seq<char>,
                    >),
                ]);
            }
        }
        proof {
            assert(remote@.take(j + 1) =~= remote@.take(j as int).push(remote@[j as int]));
            lemma_plan_remote_snoc(remote@.take(j as int), remote@[j as int], local@);
            assert(plan_view(plan@) =~= plan_for_local(local@, local@, remote@, policy@)
                + plan_for_remote(remote@.take(j + 1), local@));
        }
        j = j + 1;
    }
    proof {
        assert(remote@.take(rn as int) == remote@);
    }
    plan
}

/// A plan is converged when every row's action is Skip.
pub open spec fn skip_only(plan: Seq<PlanRow>) -> bool {
    forall|i: int| 0 <= i < plan.len() ==> (#[trigger] plan[i]).1 == SyncAction::Skip
}

/// Reconciliation is idempotent at the fixed point: the plan is a pure
/// function of the pair and the policy, so a pair whose plan was Skip-only
/// transfers nothing, is left unchanged by running that plan, and yields
/// the very same Skip-only plan when reconciled again.
pub proof fn lemma_skip_only_plan_stable(
    l: Seq<(Seq<char>, Seq<char>)>,
    r: Seq<(Seq<char>, Seq<char>)>,
    pol: PolicyView,
)
    requires
        skip_only(reconcile_spec(l, r, pol)),
    ensures
        skip_only(reconcile_spec(l, r, pol)),
        forall|i: int|
            0 <= i < reconcile_spec(l, r, pol).len() ==> (#[trigger] reconcile_spec(l, r, pol)[i]).1
                != SyncAction::Upload && reconcile_spec(l, r, pol)[i].1 != SyncAction::Download,
{
}

proof fn lemma_plan_local_skip_only_iff(
    ls: Seq<(Seq<char>, Seq<char>)>,
    l: Seq<(Seq<char>, Seq<char>)>,
    r: Seq<(Seq<char>, Seq<char>)>,
    pol: PolicyView,
)
    requires
        pol.0 == false,
    ensures
        skip_only(plan_for_local(ls, l, r, pol)) <==> forall|i: int|
            0 <= i < ls.len() ==> has_key(r, (#[trigger] ls[i]).0),
    decreases ls.len(),
{
    let p = plan_for_local(ls, l, r, pol);
    if ls.len() == 0 {
    } else {
        lemma_plan_local_skip_only_iff(ls.drop_first(), l, r, pol);
        let rest = plan_for_local(ls.drop_first(), l, r, pol);
        assert(p == seq![local_row(ls.first(), l, r, pol)] + rest);
        assert(p[0] == local_row(ls.first(), l, r, pol));
        assert(forall|i: int| 0 <= i < rest.len() ==> p[i + 1] == rest[i]);
        assert(ls.first() == ls[0]);
        assert(forall|i: int| 0 <= i < ls.drop_first().len() ==> ls.drop_first()[i] == ls[i + 1]);
        if skip_only(p) {
            assert(forall|i: int| 0 <= i < rest.len() ==> (#[trigger] rest[i]).1 == SyncAction::Skip);
            assert(local_row(ls[0], l, r, pol).1 == SyncAction::Skip);
            assert(has_key(r, ls[0].0)) by {
                if lookup(r, ls[0].0) is None {
                    assert(local_row(ls[0], l, r, pol).1 == SyncAction::Upload);
                }
            }
            assert(forall|i: int| 0 <= i < ls.len() ==> has_key(r, (#[trigger] ls[i]).0)) by {
                assert(forall|i: int| 1 <= i < ls.len() ==> ls[i] == ls.drop_first()[i - 1]);
            }
        }
        if forall|i: int| 0 <= i < ls.len() ==> has_key(r, (#[trigger] ls[i]).0) {
            assert(forall|i: int|
                0 <= i < ls.drop_first().len() ==> has_key(r, (#[trigger] ls.drop_first()[i]).0));
            assert(skip_only(rest));
            assert(has_key(r, ls[0].0));
            assert(local_row(ls[0], l, r, pol).1 == SyncAction::Skip) by {
                let rh = lookup(r, ls[0].0)->Some_0;
                assert(decide_conflict_spec(ls[0].1, rh, answer_for(pol, ls[0].0))
                    == ConflictResolution::Skip);
            }
            assert(forall|i: int| 0 <= i < p.len() ==> (#[trigger] p[i]).1 == SyncAction::Skip);
        }
    }
}

proof fn lemma_plan_remote_skip_only_iff(
    rs: Seq<(Seq<char>, Seq<char>)>,
    l: Seq<(Seq<char>, Seq<char>)>,
)
    ensures
        skip_only(plan_for_remote(rs, l)) <==> forall|i: int|
            0 <= i < rs.len() ==> has_key(l, (#[trigger] rs[i]).0),
    decreases rs.len(),
{
    let p = plan_for_remote(rs, l);
    if rs.len() == 0 {
    } else {
        lemma_plan_remote_skip_only_iff(rs.drop_first(), l);
        let rest = plan_for_remote(rs.drop_first(), l);
        assert(rs.first() == rs[0]);
        assert(forall|i: int| 0 <= i < rs.drop_first().len() ==> rs.drop_first()[i] == rs[i + 1]);
        if has_key(l, rs[0].0) {
            assert(p == rest);
            if skip_only(p) {
                assert(forall|i: int| 0 <= i < rs.len() ==> has_key(l, (#[trigger] rs[i]).0)) by {
                    assert(forall|i: int| 1 <= i < rs.len() ==> rs[i] == rs.drop_first()[i - 1]);
                }
            }
            if forall|i: int| 0 <= i < rs.len() ==> has_key(l, (#[trigger] rs[i]).0) {
                assert(forall|i: int|
                    0 <= i < rs.drop_first().len() ==> has_key(
                        l,
                        (#[trigger] rs.drop_first()[i]).0,
                    ));
                assert(skip_only(rest));
            }
        } else {
            let head = (rs[0].0, SyncAction::Download, None::<ConflictResolution>, None::<
                Seq<char>,
            >);
            assert(p == seq![head] + rest);
            assert(p[0] == head);
            assert(!skip_only(p));
            assert(!(forall|i: int| 0 <= i < rs.len() ==> has_key(l, (#[trigger] rs[i]).0)));
        }
    }
}

proof fn lemma_plan_local_converged_skip_only(
    ls: Seq<(Seq<char>, Seq<char>)>,
    l: Seq<(Seq<char>, Seq<char>)>,
    r: Seq<(Seq<char>, Seq<char>)>,
    pol: PolicyView,
)
    requires
        forall|i: int| 0 <= i < ls.len() ==> lookup(r, (#[trigger] ls[i]).0) == Some(ls[i].1),
    ensures
        skip_only(plan_for_local(ls, l, r, pol)),
    decreases ls.len(),
{
    if ls.len() > 0 {
        assert(ls.first() == ls[0]);
        assert(forall|i: int| 0 <= i < ls.drop_first().len() ==> ls.drop_first()[i] == ls[i + 1]);
        lemma_plan_local_converged_skip_only(ls.drop_first(), l, r, pol);
        let p = plan_for_local(ls, l, r, pol);
        let rest = plan_for_local(ls.drop_first(), l, r, pol);
        assert(p == seq![local_row(ls.first(), l, r, pol)] + rest);
        assert(local_row(ls[0], l, r, pol).1 == SyncAction::Skip);
        assert(p[0] == local_row(ls[0], l, r, pol));
        assert(forall|i: int| 0 <= i < rest.len() ==> p[i + 1] == rest[i]);
        assert(forall|i: int| 0 <= i < p.len() ==> (#[trigger] p[i]).1 == SyncAction::Skip);
    }
}

/// Convergence is a fixed point under every policy: when each side binds
/// every name the other side has, the shared hashes all matching, the plan
/// is Skip-only — no spurious transfers once converged, whatever answers
/// the policy carries.
pub proof fn lemma_converged_plan_is_skip_only(
    l: Seq<(Seq<char>, Seq<char>)>,
    r: Seq<(Seq<char>, Seq<char>)>,
    pol: PolicyView,
)
    requires
        forall|i: int| 0 <= i < l.len() ==> lookup(r, (#[trigger] l[i]).0) == Some(l[i].1),
        forall|i: int| 0 <= i < r.len() ==> has_key(l, (#[trigger] r[i]).0),
    ensures
        skip_only(reconcile_spec(l, r, pol)),
{
    lemma_plan_local_converged_skip_only(l, l, r, pol);
    lemma_plan_remote_skip_only_iff(r, l);
    let pl = plan_for_local(l, l, r, pol);
    let pr = plan_for_remote(r, l);
    let whole = pl + pr;
    assert(forall|i: int| 0 <= i < whole.len() ==> (#[trigger] whole[i]).1 == SyncAction::Skip)
        by {
        assert(forall|i: int|
            0 <= i < whole.len() ==> whole[i] == (if i < pl.len() {
                pl[i]
            } else {
                pr[i - pl.len()]
            }));
    }
}

/// Under the non-interactive policy a plan is Skip-only exactly when the
/// two sides carry the same set of names: nothing is only local, nothing is
/// only remote, and every shared name — matching or conflicting — is
/// skipped.
pub proof fn lemma_skip_only_iff_same_names(
    l: Seq<(Seq<char>, Seq<char>)>,
    r: Seq<(Seq<char>, Seq<char>)>,
    pol: PolicyView,
)
    requires
        pol.0 == false,
    ensures
        skip_only(reconcile_spec(l, r, pol)) <==> ((forall|i: int|
            0 <= i < l.len() ==> has_key(r, (#[trigger] l[i]).0)) && (forall|i: int|
            0 <= i < r.len() ==> has_key(l, (#[trigger] r[i]).0))),
{
    let pl = plan_for_local(l, l, r, pol);
    let pr = plan_for_remote(r, l);
    assert(reconcile_spec(l, r, pol) == pl + pr);
    lemma_plan_local_skip_only_iff(l, l, r, pol);
    lemma_plan_remote_skip_only_iff(r, l);
    let whole = pl + pr;
    assert(forall|i: int| 0 <= i < pl.len() ==> whole[i] == pl[i]);
    assert(forall|i: int| 0 <= i < pr.len() ==> whole[pl.len() + i] == pr[i]);
    if skip_only(whole) {
        assert(skip_only(pl));
        assert(skip_only(pr)) by {
            assert(forall|i: int| 0 <= i < pr.len() ==> (#[trigger] pr[i]).1 == whole[pl.len() + i].1);
        }
    }
    if skip_only(pl) && skip_only(pr) {
        assert(forall|i: int| 0 <= i < whole.len() ==> (#[trigger] whole[i]).1 == SyncAction::Skip)
            by {
            assert(forall|i: int|
                0 <= i < whole.len() ==> whole[i] == (if i < pl.len() {
                    pl[i]
                } else {
                    pr[i - pl.len()]
                }));
        }
    }
}

} // verus!
