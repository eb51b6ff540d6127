//! The desync transformation engine: one logical write becomes an ordered
//! sequence of physical write instructions according to the configured
//! policy.
//!
//! The engine is pure: it only computes the instruction list.  The caller
//! writes and flushes each instruction, in order, before the next one
//! begins.

use vstd::prelude::*;
use vstd::slice::slice_to_vec;

use crate::config::{DesyncConfig, SplitConfig};
use crate::packets::{
    find_http_host_offset, find_sni_offset, is_tls_chello, spec_find_http_host_offset,
    spec_find_sni_offset, spec_is_tls_chello,
};

verus! {

/// Delivery hint of one write instruction.  A short-lived instruction is
/// meant to be seen by an on-path inspector but dropped before it reaches
/// the real destination (a decoy); a normal instruction carries real data.
#[derive(Clone, Copy, Debug, PartialEq, Eq, Structural)]
pub enum Delivery {
    Normal,
    ShortLived,
}

/// One write instruction: the bytes to put on the wire and their delivery
/// hint.  Instructions are written and flushed strictly in emission order.
#[derive(Clone, Debug)]
pub struct WriteInstruction {
    pub data: Vec<u8>,
    pub delivery: Delivery,
}

impl View for WriteInstruction {
    type V = (Seq<u8>, Delivery);

    open spec fn view(&self) -> (Seq<u8>, Delivery) {
        (self.data@, self.delivery)
    }
}

/// The views of a sequence of write instructions.
pub open spec fn instr_views(s: Seq<WriteInstruction>) -> Seq<(Seq<u8>, Delivery)> {
    s.map_values(|w: WriteInstruction| w@)
}

/// Segments tagged with one shared delivery hint.
pub open spec fn with_delivery(segs: Seq<Seq<u8>>, d: Delivery) -> Seq<(Seq<u8>, Delivery)> {
    segs.map_values(|s: Seq<u8>| (s, d))
}

/// Division by two that truncates toward zero, as machine integers do.
pub open spec fn half_toward_zero(x: int) -> int {
    if x >= 0 {
        x / 2
    } else {
        -((-x) / 2)
    }
}

/// The resolved cut position of one rule against a buffer, per the fixed
/// order: negative offsets rebase on the buffer length; the `sni` flag (on a
/// TLS ClientHello) and the `host` flag add the located field offset, when
/// found; `middle` halves; `end` counts from the buffer end; the result is
/// clamped to `[0, b.len()]`.  Absent SNI/Host data contributes nothing.
pub open spec fn spec_calculate_offset(cfg: SplitConfig, b: Seq<u8>, is_tls: bool) -> int {
    let o1 = if cfg.offset < 0 {
        b.len() + cfg.offset
    } else {
        cfg.offset as int
    };
    let o2 = if cfg.flags.sni && is_tls {
        match spec_find_sni_offset(b) {
            Some(s) => o1 + s,
            None => o1,
        }
    } else {
        o1
    };
    let o3 = if cfg.flags.host {
        match spec_find_http_host_offset(b) {
            Some(h) => o2 + h,
            None => o2,
        }
    } else {
        o2
    };
    let o4 = if cfg.flags.middle {
        half_toward_zero(o3)
    } else {
        o3
    };
    let o5 = if cfg.flags.end {
        b.len() - o4
    } else {
        o4
    };
    let clamped_low = if o5 < 0 {
        0
    } else {
        o5
    };
    if clamped_low > b.len() {
        b.len() as int
    } else {
        clamped_low
    }
}

/// The cut points the split technique keeps, resolving the rules in
/// configured order against the original buffer and keeping only positions
/// strictly greater than the previous cut and within the buffer.
pub open spec fn spec_split_cuts(
    rules: Seq<SplitConfig>,
    b: Seq<u8>,
    is_tls: bool,
    last: usize,
) -> Seq<usize>
    decreases rules.len(),
{
    if rules.len() == 0 {
        Seq::empty()
    } else {
        let p = spec_calculate_offset(rules[0], b, is_tls);
        if p > last && p <= b.len() {
            seq![p as usize] + spec_split_cuts(rules.drop_first(), b, is_tls, p as usize)
        } else {
            spec_split_cuts(rules.drop_first(), b, is_tls, last)
        }
    }
}

/// The boundary positions of the split technique: 0, the kept cut points,
/// and the buffer end when trailing bytes remain after the last cut.
pub open spec fn spec_split_boundaries(b: Seq<u8>, rules: Seq<SplitConfig>, is_tls: bool) -> Seq<
    usize,
> {
    let base = seq![0usize] + spec_split_cuts(rules, b, is_tls, 0);
    if base.last() < b.len() {
        base + seq![b.len() as usize]
    } else {
        base
    }
}

/// The contiguous segments of `b` between consecutive boundary positions.
pub open spec fn spec_segments(b: Seq<u8>, bnds: Seq<usize>) -> Seq<Seq<u8>> {
    if bnds.len() == 0 {
        Seq::empty()
    } else {
        Seq::new((bnds.len() - 1) as nat, |i: int| b.subrange(bnds[i] as int, bnds[i + 1] as int))
    }
}

/// The segments the split technique emits, in forward order.
pub open spec fn spec_apply_split(b: Seq<u8>, rules: Seq<SplitConfig>, is_tls: bool) -> Seq<
    Seq<u8>,
> {
    spec_segments(b, spec_split_boundaries(b, rules, is_tls))
}

/// `s` with `x` inserted in ascending position, duplicates collapsed; on a
/// sorted sequence without duplicates this keeps both properties.
pub open spec fn insert_sorted(s: Seq<usize>, x: usize) -> Seq<usize>
    decreases s.len(),
{
    if s.len() == 0 {
        seq![x]
    } else if x < s[0] {
        seq![x] + s
    } else if x == s[0] {
        s
    } else {
        seq![s[0]] + insert_sorted(s.drop_first(), x)
    }
}

/// Strictly ascending order.
pub open spec fn sorted_strict(s: Seq<usize>) -> bool {
    forall|i: int, j: int| 0 <= i < j < s.len() ==> s[i] < s[j]
}

/// The cut positions of the disorder technique: the implicit boundaries 0
/// and `b.len()`, then every rule's resolved offset, inserted in ascending
/// order without duplicates, in configured order.
pub open spec fn spec_disorder_positions(rules: Seq<SplitConfig>, b: Seq<u8>, is_tls: bool) -> Seq<
    usize,
>
    decreases rules.len(),
{
    if rules.len() == 0 {
        insert_sorted(insert_sorted(Seq::empty(), 0), b.len() as usize)
    } else {
        insert_sorted(
            spec_disorder_positions(rules.drop_last(), b, is_tls),
            spec_calculate_offset(rules.last(), b, is_tls) as usize,
        )
    }
}

/// The segments the disorder technique emits: the forward partition of the
/// buffer between consecutive cut positions, in reverse segment order (last
/// segment first).
pub open spec fn spec_apply_disorder(b: Seq<u8>, rules: Seq<SplitConfig>, is_tls: bool) -> Seq<
    Seq<u8>,
> {
    spec_segments(b, spec_disorder_positions(rules, b, is_tls)).reverse()
}

/// Inserting into a strictly sorted sequence keeps it strictly sorted; the
/// first and last elements only change when the new element passes them.
pub proof fn lemma_insert_sorted_sorted(s: Seq<usize>, x: usize)
    requires
        sorted_strict(s),
    ensures
        sorted_strict(insert_sorted(s, x)),
        s.len() <= insert_sorted(s, x).len() <= s.len() + 1,
        s.len() >= 1 ==> insert_sorted(s, x)[0] == (if x < s[0] {
            x
        } else {
            s[0]
        }),
        s.len() >= 1 ==> insert_sorted(s, x).last() == (if x > s.last() {
            x
        } else {
            s.last()
        }),
        s.len() == 0 ==> insert_sorted(s, x) == seq![x],
    decreases s.len(),
{
    if s.len() == 0 {
    } else if x < s[0] {
        let r = seq![x] + s;
        assert forall|i: int, j: int| 0 <= i < j < r.len() implies r[i] < r[j] by {
            if i > 0 {
                assert(r[i] == s[i - 1] && r[j] == s[j - 1]);
            }
        }
    } else if x == s[0] {
    } else {
        let tail = s.drop_first();
        assert(sorted_strict(tail)) by {
            assert(forall|i: int, j: int|
                0 <= i < j < tail.len() ==> tail[i] == s[i + 1] && tail[j] == s[j + 1]);
        }
        lemma_insert_sorted_sorted(tail, x);
        let rt = insert_sorted(tail, x);
        let r = seq![s[0]] + rt;
        assert(insert_sorted(s, x) == r);
        if tail.len() == 0 {
            assert(rt == seq![x]);
        }
        assert(rt.len() >= 1 && s[0] < rt[0]);
        assert forall|i: int, j: int| 0 <= i < j < r.len() implies r[i] < r[j] by {
            if i > 0 {
                assert(r[i] == rt[i - 1] && r[j] == rt[j - 1]);
            } else {
                assert(r[j] == rt[j - 1]);
                assert(rt[0] <= rt[j - 1]);
            }
        }
        assert(r.last() == rt.last());
        if tail.len() >= 1 {
            assert(s.last() == tail.last());
        }
    }
}

/// The disorder cut positions are strictly sorted, start at 0 and end at
/// the buffer length.
pub proof fn lemma_disorder_positions_props(rules: Seq<SplitConfig>, b: Seq<u8>, is_tls: bool)
    requires
        b.len() <= usize::MAX,
    ensures
        sorted_strict(spec_disorder_positions(rules, b, is_tls)),
        spec_disorder_positions(rules, b, is_tls).len() >= 1,
        spec_disorder_positions(rules, b, is_tls)[0] == 0,
        spec_disorder_positions(rules, b, is_tls).last() == b.len(),
    decreases rules.len(),
{
    if rules.len() == 0 {
        let s0 = insert_sorted(Seq::empty(), 0);
        assert(s0 == seq![0usize]);
        lemma_insert_sorted_sorted(s0, b.len() as usize);
    } else {
        lemma_disorder_positions_props(rules.drop_last(), b, is_tls);
        let prev = spec_disorder_positions(rules.drop_last(), b, is_tls);
        let x = spec_calculate_offset(rules.last(), b, is_tls) as usize;
        lemma_insert_sorted_sorted(prev, x);
    }
}

/// Insert `x` into `v` at its ascending position, collapsing duplicates.
#[verifier::loop_isolation(false)]
fn insert_sorted_vec(v: &mut Vec<usize>, x: usize)
    ensures
        final(v)@ == insert_sorted(old(v)@, x),
{
    let n = v.len();
    let mut i: usize = 0;
    proof {
        assert(v@.subrange(0, n as int) =~= v@);
        assert(v@.subrange(0, 0) + insert_sorted(v@, x) =~= insert_sorted(v@, x));
    }
    while i < n && v[i] < x
        invariant
            0 <= i <= n,
            insert_sorted(v@, x) == v@.subrange(0, i as int) + insert_sorted(
                v@.subrange(i as int, n as int),
                x,
            ),
        decreases n - i,
    {
        proof {
            let tail = v@.subrange(i as int, n as int);
            assert(tail[0] == v@[i as int]);
            assert(tail.drop_first() =~= v@.subrange(i + 1, n as int));
            assert(v@.subrange(0, i as int) + (seq![v@[i as int]] + insert_sorted(
                tail.drop_first(),
                x,
            )) =~= v@.subrange(0, i + 1) + insert_sorted(v@.subrange(i + 1, n as int), x));
        }
        i = i + 1;
    }
    if i < n {
        if v[i] == x {
            proof {
                let tail = v@.subrange(i as int, n as int);
                assert(tail[0] == x);
                assert(v@.subrange(0, i as int) + tail =~= v@);
            }
            return ;
        }
    }
    proof {
        let tail = v@.subrange(i as int, n as int);
        if i < n {
            assert(x < tail[0]);
            assert(insert_sorted(tail, x) == seq![x] + tail);
        } else {
            assert(tail =~= Seq::<usize>::empty());
        }
        assert(v@.subrange(0, i as int) + (seq![x] + tail) =~= v@.insert(i as int, x));
    }
    v.insert(i, x);
}

/// The instructions the fake technique emits.  Only the first configured
/// rule is taken.  When decoy payload bytes are configured and no longer
/// than the rule's resolved offset, they go first as a short-lived
/// instruction; the entire original buffer always follows, unmodified, as
/// one normal instruction.
pub open spec fn spec_apply_fake(b: Seq<u8>, fakes: Seq<crate::config::FakeConfig>, is_tls: bool) -> Seq<
    (Seq<u8>, Delivery),
> {
    if fakes.len() == 0 {
        seq![(b, Delivery::Normal)]
    } else {
        let pos = spec_calculate_offset(fakes[0].split, b, is_tls);
        match fakes[0].data {
            Some(d) => if d@.len() <= pos {
                seq![(d@, Delivery::ShortLived), (b, Delivery::Normal)]
            } else {
                seq![(b, Delivery::Normal)]
            },
            None => seq![(b, Delivery::Normal)],
        }
    }
}

/// The instructions one logical write turns into.  An empty buffer yields
/// nothing; otherwise the first non-empty technique list wins, in the fixed
/// precedence split, then disorder, then fake; with no technique configured
/// the whole buffer goes out as one normal instruction.
pub open spec fn spec_apply_desync(b: Seq<u8>, cfg: DesyncConfig, is_tls: bool) -> Seq<
    (Seq<u8>, Delivery),
> {
    if b.len() == 0 {
        Seq::empty()
    } else if cfg.split@.len() > 0 {
        with_delivery(spec_apply_split(b, cfg.split@, is_tls), Delivery::Normal)
    } else if cfg.disorder@.len() > 0 {
        with_delivery(spec_apply_disorder(b, cfg.disorder@, is_tls), Delivery::Normal)
    } else if cfg.fake@.len() > 0 {
        spec_apply_fake(b, cfg.fake@, is_tls)
    } else {
        seq![(b, Delivery::Normal)]
    }
}

/// The desync transformation engine.  Holds the policy, constructed once
/// and read-only afterwards, and turns each outgoing buffer into an ordered
/// instruction list.
#[derive(Clone, Debug)]
pub struct DesyncEngine {
    config: DesyncConfig,
}

impl DesyncEngine {
    /// The policy in effect, for contracts.
    pub closed spec fn policy(&self) -> DesyncConfig {
        self.config
    }

    /// Build an engine around a policy.
    pub fn new(config: DesyncConfig) -> (r: Self)
        ensures
            r.policy() == config,
    {
        DesyncEngine { config }
    }

    /// Resolve one rule's offset against a buffer, per the fixed order of
    /// [`spec_calculate_offset`].  Never underflows or overflows: the
    /// arithmetic is exact and the result is clamped to `[0, buffer.len()]`.
    #[verifier::rlimit(30)]
    pub fn calculate_offset(&self, split_cfg: &SplitConfig, buffer: &[u8], is_tls: bool) -> (r:
        usize)
        ensures
            r == spec_calculate_offset(*split_cfg, buffer@, is_tls),
            r <= buffer@.len(),
    {
        let len_i: i128 = buffer.len() as i128;
        let mut off: i128 = split_cfg.offset as i128;

        if off < 0 {
            off = len_i + off;
        }
        if split_cfg.flags.sni && is_tls {
            if let Some(s) = find_sni_offset(buffer) {
                off = off + s as i128;
            }
        }
        if split_cfg.flags.host {
            if let Some(h) = find_http_host_offset(buffer) {
                off = off + h as i128;
            }
        }
        if split_cfg.flags.middle {
            if off >= 0 {
                off = ((off as u128) / 2) as i128;
            } else {
                off = -(((-off) as u128 / 2) as i128);
            }
        }
        if split_cfg.flags.end {
            off = len_i - off;
        }
        if off < 0 {
            0
        } else if off > len_i {
            buffer.len()
        } else {
            off as usize
        }
    }

    /// Apply the split technique: emit one normal-delivery instruction per
    /// contiguous segment between the kept cut points, in forward order.
    pub fn apply_split(&self, buffer: &[u8], is_tls: bool) -> (r: Vec<WriteInstruction>)
        ensures
            instr_views(r@) == with_delivery(
                spec_apply_split(buffer@, self.policy().split@, is_tls),
                Delivery::Normal,
            ),
    {
        let rules = &self.config.split;
        let len = buffer.len();
        let mut out: Vec<WriteInstruction> = Vec::new();
        let mut last: usize = 0;
        let ghost mut cuts_done: Seq<usize> = Seq::empty();
        let mut idx: usize = 0;

        proof {
            assert(rules@.skip(0) =~= rules@);
        }
        while idx < rules.len()
            invariant
                len == buffer@.len(),
                0 <= idx <= rules@.len(),
                last <= len,
                spec_split_cuts(rules@, buffer@, is_tls, 0) == cuts_done + spec_split_cuts(
                    rules@.skip(idx as int),
                    buffer@,
                    is_tls,
                    last,
                ),
                out@.len() == cuts_done.len(),
                last as int == (seq![0usize] + cuts_done).last(),
                forall|j: int|
                    0 <= j < out@.len() ==> (#[trigger] out@[j]).data@ == buffer@.subrange(
                        (seq![0usize] + cuts_done)[j] as int,
                        (seq![0usize] + cuts_done)[j + 1] as int,
                    ) && out@[j].delivery == Delivery::Normal,
            decreases rules@.len() - idx,
        {
            let rule = &rules[idx];
            let p = self.calculate_offset(rule, buffer, is_tls);
            proof {
                assert(rules@.skip(idx as int).drop_first() =~= rules@.skip(idx as int + 1));
                assert(rules@.skip(idx as int)[0] == rules@[idx as int]);
            }
            if p > last && p <= len {
                let seg = slice_to_vec(&buffer[last..p]);
                out.push(WriteInstruction { data: seg, delivery: Delivery::Normal });
                proof {
                    cuts_done = cuts_done.push(p);
                    assert(cuts_done.drop_last() + seq![p] =~= cuts_done);
                    assert((seq![0usize] + cuts_done.drop_last()) + seq![p] =~= seq![0usize]
                        + cuts_done);
                    assert(seq![p as usize] + spec_split_cuts(
                        rules@.skip(idx as int + 1),
                        buffer@,
                        is_tls,
                        p,
                    ) =~= seq![p as usize].add(
                        spec_split_cuts(rules@.skip(idx as int + 1), buffer@, is_tls, p),
                    ));
                    assert(cuts_done.drop_last() + (seq![p as usize] + spec_split_cuts(
                        rules@.skip(idx as int + 1),
                        buffer@,
                        is_tls,
                        p,
                    )) =~= cuts_done + spec_split_cuts(
                        rules@.skip(idx as int + 1),
                        buffer@,
                        is_tls,
                        p,
                    ));
                }
                last = p;
            }
            idx = idx + 1;
        }
        proof {
            assert(rules@.skip(rules@.len() as int) =~= Seq::<SplitConfig>::empty());
            assert(spec_split_cuts(rules@, buffer@, is_tls, 0) == cuts_done);
        }

        // Trailing bytes after the last cut form a final segment.
        let ghost base: Seq<usize> = seq![0usize] + cuts_done;
        if last < len {
            let seg = slice_to_vec(&buffer[last..len]);
            out.push(WriteInstruction { data: seg, delivery: Delivery::Normal });
            proof {
                assert(spec_split_boundaries(buffer@, rules@, is_tls) =~= base + seq![
                    len as usize,
                ]);
            }
        } else {
            proof {
                assert(spec_split_boundaries(buffer@, rules@, is_tls) =~= base);
            }
        }
        proof {
            let bnds = spec_split_boundaries(buffer@, rules@, is_tls);
            let segs = spec_segments(buffer@, bnds);
            assert(instr_views(out@) =~= with_delivery(segs, Delivery::Normal));
        }
        out
    }

    /// Apply the disorder technique: partition the buffer at the resolved
    /// cut positions (plus the implicit boundaries 0 and the buffer end) and
    /// emit the segments in reverse order, last segment first, each with
    /// normal delivery.
    #[verifier::loop_isolation(false)]
    pub fn apply_disorder(&self, buffer: &[u8], is_tls: bool) -> (r: Vec<WriteInstruction>)
        ensures
            instr_views(r@) == with_delivery(
                spec_apply_disorder(buffer@, self.policy().disorder@, is_tls),
                Delivery::Normal,
            ),
    {
        let rules = &self.config.disorder;
        let len = buffer.len();

        // Gather the cut positions, ascending and without duplicates.
        let mut positions: Vec<usize> = Vec::new();
        insert_sorted_vec(&mut positions, 0);
        insert_sorted_vec(&mut positions, len);
        proof {
            assert(rules@.take(0) =~= Seq::<SplitConfig>::empty());
            assert(positions@ == spec_disorder_positions(rules@.take(0), buffer@, is_tls));
        }
        let mut idx: usize = 0;
        while idx < rules.len()
            invariant
                0 <= idx <= rules@.len(),
                positions@ == spec_disorder_positions(rules@.take(idx as int), buffer@, is_tls),
            decreases rules@.len() - idx,
        {
            let p = self.calculate_offset(&rules[idx], buffer, is_tls);
            insert_sorted_vec(&mut positions, p);
            proof {
                assert(rules@.take(idx + 1).drop_last() =~= rules@.take(idx as int));
                assert(rules@.take(idx + 1).last() == rules@[idx as int]);
            }
            idx = idx + 1;
        }
        proof {
            assert(rules@.take(rules@.len() as int) =~= rules@);
            lemma_disorder_positions_props(rules@, buffer@, is_tls);
        }

        // Emit the segments between consecutive positions, last first.
        let n = positions.len();
        let ghost segs = spec_segments(buffer@, positions@);
        let mut out: Vec<WriteInstruction> = Vec::new();
        let mut i: usize = n - 1;
        while i > 0
            invariant
                out@.len() == n - 1 - i,
                0 <= i <= n - 1,
                forall|j: int|
                    0 <= j < out@.len() ==> (#[trigger] out@[j])@ == (segs[n - 2 - j],
                    Delivery::Normal),
            decreases i,
        {
            let start = positions[i - 1];
            let end = positions[i];
            proof {
                assert(positions@[i - 1] < positions@[i as int]);
                if i < n - 1 {
                    assert(positions@[i as int] < positions@[n - 1]);
                }
            }
            let seg = slice_to_vec(&buffer[start..end]);
            out.push(WriteInstruction { data: seg, delivery: Delivery::Normal });
            i = i - 1;
        }
        proof {
            assert(instr_views(out@) =~= with_delivery(segs.reverse(), Delivery::Normal));
        }
        out
    }

    /// Apply the fake technique: per the first configured rule, emit the
    /// decoy payload (when present and no longer than the resolved offset)
    /// as a short-lived instruction, then the whole original buffer as a
    /// normal instruction.
    pub fn apply_fake(&self, buffer: &[u8], is_tls: bool) -> (r: Vec<WriteInstruction>)
        ensures
            instr_views(r@) == spec_apply_fake(buffer@, self.policy().fake@, is_tls),
    {
        let mut out: Vec<WriteInstruction> = Vec::new();
        if self.config.fake.len() > 0 {
            let rule = &self.config.fake[0];
            let pos = self.calculate_offset(&rule.split, buffer, is_tls);
            if let Some(d) = &rule.data {
                if d.len() <= pos {
                    out.push(
                        WriteInstruction {
                            data: slice_to_vec(d.as_slice()),
                            delivery: Delivery::ShortLived,
                        },
                    );
                }
            }
        }
        out.push(WriteInstruction { data: slice_to_vec(buffer), delivery: Delivery::Normal });
        proof {
            assert(instr_views(out@) =~= spec_apply_fake(buffer@, self.policy().fake@, is_tls));
        }
        out
    }

    /// Turn one outgoing buffer into the ordered instruction list of the
    /// policy's active technique.  The buffer itself is never mutated, and
    /// either the full instruction sequence is returned or (for an empty
    /// buffer) nothing.
    pub fn apply_desync(&self, buffer: &[u8]) -> (r: Vec<WriteInstruction>)
        ensures
            instr_views(r@) == spec_apply_desync(
                buffer@,
                self.policy(),
                spec_is_tls_chello(buffer@),
            ),
    {
        if buffer.len() == 0 {
            let out: Vec<WriteInstruction> = Vec::new();
            proof {
                assert(instr_views(out@) =~= Seq::<(Seq<u8>, Delivery)>::empty());
            }
            return out;
        }
        let is_tls = is_tls_chello(buffer);
        if self.config.split.len() > 0 {
            return self.apply_split(buffer, is_tls);
        }
        if self.config.disorder.len() > 0 {
            return self.apply_disorder(buffer, is_tls);
        }
        if self.config.fake.len() > 0 {
            return self.apply_fake(buffer, is_tls);
        }
        let mut out: Vec<WriteInstruction> = Vec::new();
        out.push(WriteInstruction { data: slice_to_vec(buffer), delivery: Delivery::Normal });
        proof {
            assert(instr_views(out@) =~= seq![(buffer@, Delivery::Normal)]);
        }
        out
    }
}

/// The kept split cut points all lie strictly above `last`, within the
/// buffer, and in strictly ascending order.
pub proof fn lemma_split_cuts_props(rules: Seq<SplitConfig>, b: Seq<u8>, is_tls: bool, last: usize)
    requires
        b.len() <= usize::MAX,
    ensures
        sorted_strict(spec_split_cuts(rules, b, is_tls, last)),
        forall|i: int|
            0 <= i < spec_split_cuts(rules, b, is_tls, last).len() ==> last < #[trigger] spec_split_cuts(
                rules,
                b,
                is_tls,
                last,
            )[i] <= b.len(),
    decreases rules.len(),
{
    if rules.len() > 0 {
        let p = spec_calculate_offset(rules[0], b, is_tls);
        if p > last && p <= b.len() {
            lemma_split_cuts_props(rules.drop_first(), b, is_tls, p as usize);
        } else {
            lemma_split_cuts_props(rules.drop_first(), b, is_tls, last);
        }
    }
}

/// Flattening the segments between boundary positions gives back the bytes
/// from the first boundary to the buffer end.
proof fn lemma_segments_flatten_from(b: Seq<u8>, bnds: Seq<usize>)
    requires
        bnds.len() >= 1,
        sorted_strict(bnds),
        bnds.last() == b.len(),
    ensures
        spec_segments(b, bnds).flatten() == b.subrange(bnds[0] as int, b.len() as int),
    decreases bnds.len(),
{
    if bnds.len() == 1 {
        assert(spec_segments(b, bnds) =~= Seq::<Seq<u8>>::empty());
        assert(b.subrange(bnds[0] as int, b.len() as int) =~= Seq::<u8>::empty());
    } else {
        let rest = bnds.drop_first();
        assert(sorted_strict(rest)) by {
            assert(forall|i: int, j: int|
                0 <= i < j < rest.len() ==> rest[i] == bnds[i + 1] && rest[j] == bnds[j + 1]);
        }
        assert(rest.last() == bnds.last());
        lemma_segments_flatten_from(b, rest);
        let segs = spec_segments(b, bnds);
        assert(segs.drop_first() =~= spec_segments(b, rest));
        assert(segs[0] == b.subrange(bnds[0] as int, bnds[1] as int));
        assert(segs.flatten() == segs[0] + segs.drop_first().flatten());
        assert(b.subrange(bnds[0] as int, bnds[1] as int) + b.subrange(
            bnds[1] as int,
            b.len() as int,
        ) =~= b.subrange(bnds[0] as int, b.len() as int));
    }
}

/// Law: for any buffer and any split rules, concatenating the segments the
/// split technique emits reproduces the original buffer exactly, byte for
/// byte.
pub proof fn lemma_split_reproduces_buffer(b: Seq<u8>, rules: Seq<SplitConfig>, is_tls: bool)
    requires
        b.len() <= usize::MAX,
    ensures
        spec_apply_split(b, rules, is_tls).flatten() == b,
{
    lemma_split_cuts_props(rules, b, is_tls, 0);
    let cuts = spec_split_cuts(rules, b, is_tls, 0);
    let base = seq![0usize] + cuts;
    let bnds = spec_split_boundaries(b, rules, is_tls);
    assert(sorted_strict(base)) by {
        assert(forall|j: int| 1 <= j < base.len() ==> base[j] == cuts[j - 1]);
    }
    if base.last() < b.len() {
        assert(bnds == base + seq![b.len() as usize]);
        assert(sorted_strict(bnds)) by {
            assert(forall|j: int| 0 <= j < base.len() ==> bnds[j] == base[j]);
            assert(bnds.last() == b.len());
            assert(forall|j: int| 0 <= j < base.len() ==> base[j] < b.len());
        }
    } else {
        if cuts.len() == 0 {
            assert(base.last() == 0);
        }
        assert(base.last() == b.len());
    }
    lemma_segments_flatten_from(b, bnds);
    assert(b.subrange(0, b.len() as int) =~= b);
}

/// A reversed segment sequence flattens to the same multiset of bytes.
proof fn lemma_flatten_reverse_multiset(s: Seq<Seq<u8>>)
    ensures
        s.reverse().flatten().to_multiset() == s.flatten().to_multiset(),
    decreases s.len(),
{
    if s.len() == 0 {
        assert(s.reverse() =~= s);
    } else {
        let rest = s.drop_first();
        lemma_flatten_reverse_multiset(rest);
        assert(s.reverse() =~= rest.reverse() + seq![s[0]]);
        vstd::seq_lib::lemma_flatten_concat(rest.reverse(), seq![s[0]]);
        assert(seq![s[0]].flatten() == s[0] + seq![s[0]].drop_first().flatten());
        assert(seq![s[0]].drop_first() =~= Seq::<Seq<u8>>::empty());
        assert(seq![s[0]].flatten() =~= s[0]);
        vstd::seq_lib::lemma_multiset_commutative(rest.reverse().flatten(), s[0]);
        vstd::seq_lib::lemma_multiset_commutative(s[0], rest.flatten());
        assert(s.flatten() == s[0] + rest.flatten());
        assert(rest.reverse().flatten().to_multiset().add(s[0].to_multiset()) =~= s[0].to_multiset()
            .add(rest.flatten().to_multiset()));
    }
}

/// Law: for any buffer and any disorder rules, the emitted segments are the
/// forward partition of the buffer in strictly reverse segment order, and
/// their multiset union equals the original buffer's bytes.
pub proof fn lemma_disorder_preserves_bytes(b: Seq<u8>, rules: Seq<SplitConfig>, is_tls: bool)
    requires
        b.len() <= usize::MAX,
    ensures
        spec_apply_disorder(b, rules, is_tls) == spec_segments(
            b,
            spec_disorder_positions(rules, b, is_tls),
        ).reverse(),
        spec_apply_disorder(b, rules, is_tls).flatten().to_multiset() == b.to_multiset(),
{
    lemma_disorder_positions_props(rules, b, is_tls);
    let positions = spec_disorder_positions(rules, b, is_tls);
    lemma_segments_flatten_from(b, positions);
    assert(b.subrange(0, b.len() as int) =~= b);
    lemma_flatten_reverse_multiset(spec_segments(b, positions));
}

} // verus!
