//! Condensing findings: results that differ only in their leading prefix
//! bytes are grouped under the bytes that follow them.
use vstd::prelude::*;

use crate::instruction::{self, bytes_lt, InstructionBytes};
use crate::legacy_format::{self, LegacyLog, LegacyParseError};
use crate::result::ExecutionResult;
use std::collections::BTreeSet;

verus! {

broadcast use {InstructionBytes::lemma_shape, vstd::laws_cmp::group_laws_cmp, vstd::seq_lib::group_seq_properties};

/// The findings whose executed bytes, without their leading prefixes, are
/// `raw`: the values they showed and the prefixes they carried (0 for none).
#[derive(Clone, Debug)]
pub struct CondensedArtifact {
    pub raw: Vec<u8>,
    pub valids: BTreeSet<u32>,
    pub lengths: BTreeSet<u32>,
    pub signums: BTreeSet<u32>,
    pub si_codes: BTreeSet<u32>,
    pub prefixes: BTreeSet<u8>,
}

/// How many leading bytes of `b` are among `ps`.
pub open spec fn lead_len(b: Seq<u8>, ps: Seq<u8>) -> nat
    decreases b.len(),
{
    if b.len() > 0 && ps.contains(b[0]) {
        1 + lead_len(b.drop_first(), ps)
    } else {
        0
    }
}

/// The executed bytes of `r` without their leading prefixes.
pub open spec fn stripped(r: ExecutionResult, ps: Seq<u8>) -> Seq<u8> {
    r.executed_bytes().skip(lead_len(r.executed_bytes(), ps) as int)
}

/// The prefixes `r` carried, or 0 when it carried none.
pub open spec fn prefix_marks(r: ExecutionResult, ps: Seq<u8>) -> Set<u8> {
    let n = lead_len(r.executed_bytes(), ps);
    if n == 0 {
        set![0u8]
    } else {
        r.executed_bytes().take(n as int).to_set()
    }
}

/// Some result of `rs` strips to `key` and `f` holds of it.
pub open spec fn some_with(rs: Seq<ExecutionResult>, ps: Seq<u8>, key: Seq<u8>, f: spec_fn(ExecutionResult) -> bool) -> bool {
    exists|i: int| 0 <= i < rs.len() && stripped(#[trigger] rs[i], ps) == key && f(rs[i])
}

/// `g` condenses the results of `rs` that strip to its `raw`.
pub open spec fn condenses(g: CondensedArtifact, rs: Seq<ExecutionResult>, ps: Seq<u8>) -> bool {
    let key = g.raw@;
    &&& some_with(rs, ps, key, |r: ExecutionResult| true)
    &&& forall|v: u32| #[trigger] g.valids@.contains(v) <==> some_with(rs, ps, key, |r: ExecutionResult| r.valid == v)
    &&& forall|v: u32| #[trigger] g.lengths@.contains(v) <==> some_with(rs, ps, key, |r: ExecutionResult| stripped(r, ps).len() == v)
    &&& forall|v: u32| #[trigger] g.signums@.contains(v) <==> some_with(rs, ps, key, |r: ExecutionResult| r.signum == v)
    &&& forall|v: u32| #[trigger] g.si_codes@.contains(v) <==> some_with(rs, ps, key, |r: ExecutionResult| r.si_code == v)
    &&& forall|b: u8| #[trigger] g.prefixes@.contains(b) <==> some_with(rs, ps, key, |r: ExecutionResult| prefix_marks(r, ps).contains(b))
}

/// `gs` condenses `rs`: one group per stripped byte string, in increasing
/// order of those strings.
pub open spec fn condensed(gs: Seq<CondensedArtifact>, rs: Seq<ExecutionResult>, ps: Seq<u8>) -> bool {
    &&& forall|i: int, j: int| 0 <= i < j < gs.len() ==> instruction::lex_lt(#[trigger] gs[i].raw@, #[trigger] gs[j].raw@)
    &&& forall|i: int| 0 <= i < gs.len() ==> condenses(#[trigger] gs[i], rs, ps)
    &&& forall|k: int| 0 <= k < rs.len() ==> exists|i: int| 0 <= i < gs.len() && (#[trigger] gs[i]).raw@ == stripped(#[trigger] rs[k], ps)
}

/// The leading prefixes of `bytes` and the bytes after them.
pub fn split_prefixes(bytes: &[u8], prefixes: &[u8]) -> (r: (BTreeSet<u8>, Vec<u8>))
    ensures
        r.0@ == bytes@.take(lead_len(bytes@, prefixes@) as int).to_set(),
        r.1@ == bytes@.skip(lead_len(bytes@, prefixes@) as int),
{
    let mut seen: BTreeSet<u8> = BTreeSet::new();
    let mut index: usize = 0;
    assert(bytes@.skip(0) =~= bytes@);
    while index < bytes.len() && contains_byte(prefixes, bytes[index])
        invariant
            index <= bytes.len(),
            lead_len(bytes@, prefixes@) == index + lead_len(bytes@.skip(index as int), prefixes@),
            seen@ == bytes@.take(index as int).to_set(),
        decreases bytes.len() - index,
    {
        seen.insert(bytes[index]);
        proof {
            assert(bytes@.skip(index as int).drop_first() =~= bytes@.skip(index + 1));
            assert(bytes@.take(index + 1) =~= bytes@.take(index as int).push(bytes@[index as int]));
            assert(bytes@.take(index + 1).to_set() =~= bytes@.take(index as int).to_set().insert(bytes@[index as int]));
        }
        index = index + 1;
    }
    let mut rest: Vec<u8> = Vec::new();
    let mut j = index;
    while j < bytes.len()
        invariant
            index <= j <= bytes.len(),
            rest@ == bytes@.subrange(index as int, j as int),
        decreases bytes.len() - j,
    {
        rest.push(bytes[j]);
        assert(bytes@.subrange(index as int, j + 1) =~= bytes@.subrange(index as int, j as int).push(bytes@[j as int]));
        j = j + 1;
    }
    assert(rest@ =~= bytes@.skip(index as int));
    assert(lead_len(bytes@.skip(index as int), prefixes@) == 0);
    (seen, rest)
}

fn contains_byte(s: &[u8], b: u8) -> (r: bool)
    ensures
        r == s@.contains(b),
{
    let mut i: usize = 0;
    while i < s.len()
        invariant
            i <= s.len(),
            forall|j: int| 0 <= j < i ==> s@[j] != b,
        decreases s.len() - i,
    {
        if s[i] == b {
            assert(s@[i as int] == b);
            return true;
        }
        i = i + 1;
    }
    false
}

/// Reads a legacy log.
pub fn load_legacy_log(input: &str) -> (r: Result<LegacyLog, LegacyParseError>)
    ensures
        match r {
            Ok(log) => legacy_format::spec_parse_log(input@) is Ok && legacy_format::log_matches(
                log,
                legacy_format::spec_parse_log(input@)->Ok_0,
            ),
            Err(e) => legacy_format::spec_parse_log(input@) == Err::<legacy_format::LogModel, (bool, Seq<char>)>(
                legacy_format::legacy_error_view(e),
            ),
        },
{
    LegacyLog::parse(input)
}

/// Adding result `k` to the first `k` adds it to what holds of some result.
proof fn lemma_some_with_push(
    rs: Seq<ExecutionResult>,
    ps: Seq<u8>,
    key: Seq<u8>,
    f: spec_fn(ExecutionResult) -> bool,
    k: int,
)
    requires
        0 <= k < rs.len(),
    ensures
        some_with(rs.take(k + 1), ps, key, f) <==> (some_with(rs.take(k), ps, key, f) || (stripped(
            rs[k],
            ps,
        ) == key && f(rs[k]))),
{
    let a = rs.take(k + 1);
    let b = rs.take(k);
    if some_with(a, ps, key, f) {
        let i = choose|i: int| 0 <= i < a.len() && stripped(#[trigger] a[i], ps) == key && f(a[i]);
        if i < k {
            assert(b[i] == a[i]);
        }
    }
    if some_with(b, ps, key, f) {
        let i = choose|i: int| 0 <= i < b.len() && stripped(#[trigger] b[i], ps) == key && f(b[i]);
        assert(a[i] == b[i]);
    }
    if stripped(rs[k], ps) == key && f(rs[k]) {
        assert(a[k] == rs[k]);
    }
}

/// A group of the first `k` results whose bytes differ from result `k`'s
/// also condenses the first `k + 1`.
proof fn lemma_condenses_other(g: CondensedArtifact, rs: Seq<ExecutionResult>, ps: Seq<u8>, k: int)
    requires
        0 <= k < rs.len(),
        condenses(g, rs.take(k), ps),
        g.raw@ != stripped(rs[k], ps),
    ensures
        condenses(g, rs.take(k + 1), ps),
{
    let key = g.raw@;
    lemma_some_with_push(rs, ps, key, |r: ExecutionResult| true, k);
    assert forall|v: u32| #[trigger] g.valids@.contains(v) <==> some_with(rs.take(k + 1), ps, key, |r: ExecutionResult| r.valid == v) by {
        lemma_some_with_push(rs, ps, key, |r: ExecutionResult| r.valid == v, k);
    }
    assert forall|v: u32| #[trigger] g.lengths@.contains(v) <==> some_with(rs.take(k + 1), ps, key, |r: ExecutionResult| stripped(r, ps).len() == v) by {
        lemma_some_with_push(rs, ps, key, |r: ExecutionResult| stripped(r, ps).len() == v, k);
    }
    assert forall|v: u32| #[trigger] g.signums@.contains(v) <==> some_with(rs.take(k + 1), ps, key, |r: ExecutionResult| r.signum == v) by {
        lemma_some_with_push(rs, ps, key, |r: ExecutionResult| r.signum == v, k);
    }
    assert forall|v: u32| #[trigger] g.si_codes@.contains(v) <==> some_with(rs.take(k + 1), ps, key, |r: ExecutionResult| r.si_code == v) by {
        lemma_some_with_push(rs, ps, key, |r: ExecutionResult| r.si_code == v, k);
    }
    assert forall|b: u8| #[trigger] g.prefixes@.contains(b) <==> some_with(rs.take(k + 1), ps, key, |r: ExecutionResult| prefix_marks(r, ps).contains(b)) by {
        lemma_some_with_push(rs, ps, key, |r: ExecutionResult| prefix_marks(r, ps).contains(b), k);
    }
}

/// `new` is `old` with result `r` added.
pub open spec fn added(old: CondensedArtifact, new: CondensedArtifact, r: ExecutionResult, ps: Seq<u8>) -> bool {
    &&& new.raw@ == old.raw@
    &&& new.valids@ == old.valids@.insert(r.valid)
    &&& new.lengths@ == old.lengths@.insert(stripped(r, ps).len() as u32)
    &&& new.signums@ == old.signums@.insert(r.signum)
    &&& new.si_codes@ == old.si_codes@.insert(r.si_code)
    &&& new.prefixes@ == old.prefixes@.union(prefix_marks(r, ps))
}

/// Adds `result`, whose executed bytes are `full` with `lead` leading
/// prefixes, to `g`.
fn add_result(g: CondensedArtifact, result: &ExecutionResult, full: &[u8], lead: usize, Ghost(ps): Ghost<Seq<u8>>) -> (r: CondensedArtifact)
    requires
        full@ == result.executed_bytes(),
        lead == lead_len(full@, ps),
    ensures
        added(g, r, *result, ps),
{
    let ghost g0 = g;
    let mut g = g;
    proof {
        lemma_lead_len_bound(full@, ps);
    }
    g.valids.insert(result.valid);
    g.lengths.insert((full.len() - lead) as u32);
    g.signums.insert(result.signum);
    g.si_codes.insert(result.si_code);
    let ghost before = g.prefixes@;
    if lead == 0 {
        g.prefixes.insert(0);
        assert(g.prefixes@ =~= before.union(set![0u8]));
    } else {
        let ghost gb = g;
        let mut i: usize = 0;
        while i < lead
            invariant
                i <= lead <= full@.len(),
                g.prefixes@ == before.union(full@.take(i as int).to_set()),
                g.raw == gb.raw,
                g.valids == gb.valids,
                g.lengths == gb.lengths,
                g.signums == gb.signums,
                g.si_codes == gb.si_codes,
            decreases lead - i,
        {
            g.prefixes.insert(full[i]);
            proof {
                assert(full@.take(i + 1) =~= full@.take(i as int).push(full@[i as int]));
                assert(g.prefixes@ =~= before.union(full@.take(i + 1).to_set()));
            }
            i = i + 1;
        }
    }
    assert(stripped(*result, ps).len() == full.len() - lead);
    g
}

proof fn lemma_lead_len_bound(b: Seq<u8>, ps: Seq<u8>)
    ensures
        lead_len(b, ps) <= b.len(),
    decreases b.len(),
{
    if b.len() > 0 && ps.contains(b[0]) {
        lemma_lead_len_bound(b.drop_first(), ps);
    }
}

/// Groups the results by their executed bytes without leading `prefixes`,
/// in increasing order of those bytes.
pub fn condense_by_stripped_prefix(records: &[ExecutionResult], prefixes: &[u8]) -> (r: Vec<CondensedArtifact>)
    ensures
        condensed(r@, records@, prefixes@),
{
    let ghost ps = prefixes@;
    let ghost rs = records@;
    let mut grouped: Vec<CondensedArtifact> = Vec::new();
    let mut k: usize = 0;
    while k < records.len()
        invariant
            k <= records.len(),
            ps == prefixes@,
            rs == records@,
            condensed(grouped@, rs.take(k as int), ps),
        decreases records.len() - k,
    {
        let result = records[k];
        let full = result.instruction.executed_prefix(result.length as usize);
        let (seen, stripped_bytes) = split_prefixes(full, prefixes);
        proof {
            lemma_lead_len_bound(full@, ps);
        }
        let lead = full.len() - stripped_bytes.len();
        let ghost key = stripped(result, ps);
        proof {
            lemma_lead_len_bound(full@, ps);
            assert(stripped_bytes@ == key);
        }
        let ghost gs = grouped@;
        let mut p: usize = 0;
        while p < grouped.len() && bytes_lt(grouped[p].raw.as_slice(), stripped_bytes.as_slice())
            invariant
                p <= grouped@.len(),
                grouped@ == gs,
                stripped_bytes@ == key,
                forall|j: int| 0 <= j < p ==> instruction::lex_lt(#[trigger] gs[j].raw@, key),
            decreases grouped.len() - p,
        {
            p = p + 1;
        }
        let present = p < grouped.len() && !bytes_lt(stripped_bytes.as_slice(), grouped[p].raw.as_slice());
        if present {
            proof {
                if gs[p as int].raw@ != key {
                    instruction::lemma_lex_total(gs[p as int].raw@, key);
                }
            }
            let g0 = grouped.remove(p);
            let g = add_result(g0, &result, full, lead, Ghost(ps));
            grouped.insert(p, g);
            proof {
                let ng = grouped@;
                assert(ng == gs.update(p as int, g));
                assert forall|i: int| 0 <= i < ng.len() implies condenses(#[trigger] ng[i], rs.take(k + 1), ps) by {
                    if i == p {
                        lemma_condenses_added(gs[i], g, rs, ps, k as int);
                    } else {
                        assert(ng[i] == gs[i]);
                        lemma_distinct_raw(gs, i, p as int);
                        lemma_condenses_other(gs[i], rs, ps, k as int);
                    }
                }
                lemma_every_result_grouped(gs, ng, rs, ps, k as int, p as int);
            }
        } else {
            proof {
                assert forall|j: int| 0 <= j < gs.len() implies (#[trigger] gs[j]).raw@ != key by {
                    if j < p {
                        instruction::lemma_lex_irreflexive(key);
                    } else {
                        assert(instruction::lex_lt(key, gs[p as int].raw@));
                        if j > p {
                            instruction::lemma_lex_transitive(key, gs[p as int].raw@, gs[j].raw@);
                        }
                        instruction::lemma_lex_irreflexive(key);
                    }
                }
            }
            let g0 = CondensedArtifact {
                raw: stripped_bytes,
                valids: BTreeSet::new(),
                lengths: BTreeSet::new(),
                signums: BTreeSet::new(),
                si_codes: BTreeSet::new(),
                prefixes: BTreeSet::new(),
            };
            let ghost empty = g0;
            let g = add_result(g0, &result, full, lead, Ghost(ps));
            grouped.insert(p, g);
            proof {
                let ng = grouped@;
                assert(ng == gs.insert(p as int, g));
                lemma_condenses_new(empty, g, rs, ps, k as int);
                assert forall|i: int| 0 <= i < ng.len() implies condenses(#[trigger] ng[i], rs.take(k + 1), ps) by {
                    if i < p {
                        assert(ng[i] == gs[i]);
                        lemma_condenses_other(gs[i], rs, ps, k as int);
                    } else if i > p {
                        assert(ng[i] == gs[i - 1]);
                        lemma_condenses_other(gs[i - 1], rs, ps, k as int);
                    }
                }
                assert forall|a: int, b: int| 0 <= a < b < ng.len() implies instruction::lex_lt(
                    #[trigger] ng[a].raw@,
                    #[trigger] ng[b].raw@,
                ) by {
                    if b < p {
                        assert(ng[a] == gs[a] && ng[b] == gs[b]);
                    } else if b == p {
                        assert(ng[a] == gs[a]);
                    } else if a == p {
                        assert(ng[b] == gs[b - 1]);
                        assert(instruction::lex_lt(key, gs[p as int].raw@));
                        if b - 1 > p {
                            instruction::lemma_lex_transitive(key, gs[p as int].raw@, gs[b - 1].raw@);
                        }
                    } else if a < p {
                        assert(ng[a] == gs[a] && ng[b] == gs[b - 1]);
                        assert(instruction::lex_lt(key, gs[p as int].raw@));
                        instruction::lemma_lex_transitive(gs[a].raw@, key, gs[p as int].raw@);
                        if b - 1 > p {
                            instruction::lemma_lex_transitive(gs[a].raw@, gs[p as int].raw@, gs[b - 1].raw@);
                        }
                    } else {
                        assert(ng[a] == gs[a - 1] && ng[b] == gs[b - 1]);
                    }
                }
                assert forall|q: int| 0 <= q < k + 1 implies exists|i: int| 0 <= i < ng.len() && (#[trigger] ng[i]).raw@ == stripped(#[trigger] rs.take(k + 1)[q], ps) by {
                    if q < k {
                        assert(rs.take(k + 1)[q] == rs.take(k as int)[q]);
                        let i = choose|i: int| 0 <= i < gs.len() && (#[trigger] gs[i]).raw@ == stripped(rs.take(k as int)[q], ps);
                        if i < p {
                            assert(ng[i] == gs[i]);
                        } else {
                            assert(ng[i + 1] == gs[i]);
                        }
                    } else {
                        assert(ng[p as int].raw@ == key);
                    }
                }
            }
        }
        k = k + 1;
    }
    assert(rs.take(rs.len() as int) =~= rs);
    grouped
}

/// Two groups at different places have different bytes.
proof fn lemma_distinct_raw(gs: Seq<CondensedArtifact>, i: int, p: int)
    requires
        0 <= i < gs.len(),
        0 <= p < gs.len(),
        i != p,
        forall|a: int, b: int| 0 <= a < b < gs.len() ==> instruction::lex_lt(#[trigger] gs[a].raw@, #[trigger] gs[b].raw@),
    ensures
        gs[i].raw@ != gs[p].raw@,
{
    if i < p {
        assert(instruction::lex_lt(gs[i].raw@, gs[p].raw@));
    } else {
        assert(instruction::lex_lt(gs[p].raw@, gs[i].raw@));
    }
    instruction::lemma_lex_irreflexive(gs[i].raw@);
}

/// A group with result `k` added condenses the first `k + 1` results.
proof fn lemma_condenses_added(old: CondensedArtifact, new: CondensedArtifact, rs: Seq<ExecutionResult>, ps: Seq<u8>, k: int)
    requires
        0 <= k < rs.len(),
        condenses(old, rs.take(k), ps),
        old.raw@ == stripped(rs[k], ps),
        added(old, new, rs[k], ps),
    ensures
        condenses(new, rs.take(k + 1), ps),
{
    let key = new.raw@;
    let r = rs[k];
    lemma_some_with_push(rs, ps, key, |x: ExecutionResult| true, k);
    assert forall|v: u32| #[trigger] new.valids@.contains(v) <==> some_with(rs.take(k + 1), ps, key, |x: ExecutionResult| x.valid == v) by {
        lemma_some_with_push(rs, ps, key, |x: ExecutionResult| x.valid == v, k);
    }
    assert forall|v: u32| #[trigger] new.lengths@.contains(v) <==> some_with(rs.take(k + 1), ps, key, |x: ExecutionResult| stripped(x, ps).len() == v) by {
        lemma_some_with_push(rs, ps, key, |x: ExecutionResult| stripped(x, ps).len() == v, k);
        lemma_stripped_short(r, ps);
    }
    assert forall|v: u32| #[trigger] new.signums@.contains(v) <==> some_with(rs.take(k + 1), ps, key, |x: ExecutionResult| x.signum == v) by {
        lemma_some_with_push(rs, ps, key, |x: ExecutionResult| x.signum == v, k);
    }
    assert forall|v: u32| #[trigger] new.si_codes@.contains(v) <==> some_with(rs.take(k + 1), ps, key, |x: ExecutionResult| x.si_code == v) by {
        lemma_some_with_push(rs, ps, key, |x: ExecutionResult| x.si_code == v, k);
    }
    assert forall|b: u8| #[trigger] new.prefixes@.contains(b) <==> some_with(rs.take(k + 1), ps, key, |x: ExecutionResult| prefix_marks(x, ps).contains(b)) by {
        lemma_some_with_push(rs, ps, key, |x: ExecutionResult| prefix_marks(x, ps).contains(b), k);
    }
}

/// A new group for result `k` alone condenses the first `k + 1` results.
proof fn lemma_condenses_new(old: CondensedArtifact, new: CondensedArtifact, rs: Seq<ExecutionResult>, ps: Seq<u8>, k: int)
    requires
        0 <= k < rs.len(),
        old.raw@ == stripped(rs[k], ps),
        old.valids@ == Set::<u32>::empty(),
        old.lengths@ == Set::<u32>::empty(),
        old.signums@ == Set::<u32>::empty(),
        old.si_codes@ == Set::<u32>::empty(),
        old.prefixes@ == Set::<u8>::empty(),
        forall|q: int| 0 <= q < k ==> stripped(#[trigger] rs.take(k)[q], ps) != old.raw@,
        added(old, new, rs[k], ps),
    ensures
        condenses(new, rs.take(k + 1), ps),
{
    let key = new.raw@;
    let r = rs[k];
    let b = rs.take(k);
    assert forall|f: spec_fn(ExecutionResult) -> bool| !some_with(b, ps, key, f) by {
        if some_with(b, ps, key, f) {
            let i = choose|i: int| 0 <= i < b.len() && stripped(#[trigger] b[i], ps) == key && f(b[i]);
        }
    }
    lemma_some_with_push(rs, ps, key, |x: ExecutionResult| true, k);
    assert forall|v: u32| #[trigger] new.valids@.contains(v) <==> some_with(rs.take(k + 1), ps, key, |x: ExecutionResult| x.valid == v) by {
        lemma_some_with_push(rs, ps, key, |x: ExecutionResult| x.valid == v, k);
    }
    assert forall|v: u32| #[trigger] new.lengths@.contains(v) <==> some_with(rs.take(k + 1), ps, key, |x: ExecutionResult| stripped(x, ps).len() == v) by {
        lemma_some_with_push(rs, ps, key, |x: ExecutionResult| stripped(x, ps).len() == v, k);
        lemma_stripped_short(r, ps);
    }
    assert forall|v: u32| #[trigger] new.signums@.contains(v) <==> some_with(rs.take(k + 1), ps, key, |x: ExecutionResult| x.signum == v) by {
        lemma_some_with_push(rs, ps, key, |x: ExecutionResult| x.signum == v, k);
    }
    assert forall|v: u32| #[trigger] new.si_codes@.contains(v) <==> some_with(rs.take(k + 1), ps, key, |x: ExecutionResult| x.si_code == v) by {
        lemma_some_with_push(rs, ps, key, |x: ExecutionResult| x.si_code == v, k);
    }
    assert forall|b: u8| #[trigger] new.prefixes@.contains(b) <==> some_with(rs.take(k + 1), ps, key, |x: ExecutionResult| prefix_marks(x, ps).contains(b)) by {
        lemma_some_with_push(rs, ps, key, |x: ExecutionResult| prefix_marks(x, ps).contains(b), k);
    }
}

/// Stripped bytes are at most 16.
proof fn lemma_stripped_short(r: ExecutionResult, ps: Seq<u8>)
    ensures
        stripped(r, ps).len() <= 16,
{
    lemma_lead_len_bound(r.executed_bytes(), ps);
}

/// After updating the group at `p` in place, every one of the first `k + 1`
/// results still has its group.
proof fn lemma_every_result_grouped(
    gs: Seq<CondensedArtifact>,
    ng: Seq<CondensedArtifact>,
    rs: Seq<ExecutionResult>,
    ps: Seq<u8>,
    k: int,
    p: int,
)
    requires
        0 <= k < rs.len(),
        0 <= p < gs.len(),
        ng.len() == gs.len(),
        forall|i: int| 0 <= i < gs.len() ==> (#[trigger] ng[i]).raw@ == gs[i].raw@,
        ng[p].raw@ == stripped(rs[k], ps),
        forall|q: int| 0 <= q < k ==> exists|i: int| 0 <= i < gs.len() && (#[trigger] gs[i]).raw@ == stripped(#[trigger] rs.take(k)[q], ps),
        forall|a: int, b: int| 0 <= a < b < gs.len() ==> instruction::lex_lt(#[trigger] gs[a].raw@, #[trigger] gs[b].raw@),
    ensures
        forall|q: int| 0 <= q < k + 1 ==> exists|i: int| 0 <= i < ng.len() && (#[trigger] ng[i]).raw@ == stripped(#[trigger] rs.take(k + 1)[q], ps),
        forall|a: int, b: int| 0 <= a < b < ng.len() ==> instruction::lex_lt(#[trigger] ng[a].raw@, #[trigger] ng[b].raw@),
{
    assert forall|q: int| 0 <= q < k + 1 implies exists|i: int| 0 <= i < ng.len() && (#[trigger] ng[i]).raw@ == stripped(#[trigger] rs.take(k + 1)[q], ps) by {
        if q < k {
            assert(rs.take(k + 1)[q] == rs.take(k)[q]);
            let i = choose|i: int| 0 <= i < gs.len() && (#[trigger] gs[i]).raw@ == stripped(rs.take(k)[q], ps);
            assert(ng[i].raw@ == gs[i].raw@);
        } else {
            assert(rs.take(k + 1)[q] == rs[k]);
            assert(ng[p].raw@ == stripped(rs[k], ps));
        }
    }
    assert forall|a: int, b: int| 0 <= a < b < ng.len() implies instruction::lex_lt(#[trigger] ng[a].raw@, #[trigger] ng[b].raw@) by {
        assert(ng[a].raw@ == gs[a].raw@ && ng[b].raw@ == gs[b].raw@);
    }
}

} // verus!
