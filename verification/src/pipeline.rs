//! Pure decision kernels of the record-stream commands: range slicing,
//! chunked splitting, record statistics, frequency-table ordering and
//! partition value handling.  The surrounding reading and writing is
//! not part of the library; callers perform it and feed plain values
//! through these functions.

use vstd::prelude::*;
use crate::bytes::bytes_eq;
use crate::record::Record;

verus! {

/// A half-open index range of records to keep, with an optional rule
/// that an invalid record extends the upper bound by one (used when the
/// range was given as a length, so invalid records do not count against
/// it).
#[derive(Debug, Clone, Copy, PartialEq, Eq, Structural)]
pub struct SliceBounds {
    pub start: usize,
    pub end: usize,
    pub extend_on_invalid: bool,
}

impl SliceBounds {
    /// A range from an inclusive lower and an exclusive upper bound.
    pub fn from_start_end(start: usize, end: usize) -> (r: SliceBounds)
        ensures
            r.start == start,
            r.end == end,
            !r.extend_on_invalid,
    {
        SliceBounds { start, end, extend_on_invalid: false }
    }

    /// A range of `length` records from `start`; the upper bound
    /// saturates at the machine word, and invalid records extend it.
    pub fn from_start_length(start: usize, length: usize) -> (r: SliceBounds)
        ensures
            r.start == start,
            r.end == (if start + length <= usize::MAX {
                (start + length) as usize
            } else {
                usize::MAX
            }),
            r.extend_on_invalid,
    {
        let end = if length <= usize::MAX - start {
            start + length
        } else {
            usize::MAX
        };
        SliceBounds { start, end, extend_on_invalid: true }
    }

    /// An unbounded range from `start`.
    pub fn from_start(start: usize) -> (r: SliceBounds)
        ensures
            r.start == start,
            r.end == usize::MAX,
            !r.extend_on_invalid,
    {
        SliceBounds { start, end: usize::MAX, extend_on_invalid: false }
    }

    /// Whether the record at index `i` lies in the range.
    pub fn keep(&self, i: usize) -> (r: bool)
        ensures
            r == (self.start <= i < self.end),
    {
        self.start <= i && i < self.end
    }

    /// Whether reading can stop at index `i`: everything at or past the
    /// upper bound is out.
    pub fn past_end(&self, i: usize) -> (r: bool)
        ensures
            r == (i >= self.end),
    {
        i >= self.end
    }

    /// Account for an invalid record: when the range was given as a
    /// length, the upper bound moves up by one so the invalid record
    /// does not consume it.
    pub fn on_invalid(&mut self)
        ensures
            final(self).start == old(self).start,
            final(self).extend_on_invalid == old(self).extend_on_invalid,
            final(self).end == (if old(self).extend_on_invalid && old(self).end < usize::MAX {
                (old(self).end + 1) as usize
            } else {
                old(self).end
            }),
    {
        if self.extend_on_invalid && self.end < usize::MAX {
            self.end = self.end + 1;
        }
    }
}

/// Whether the record at index `count` opens a new chunk of `size`
/// records: at every positive multiple of the chunk size.
pub fn starts_new_chunk(count: usize, size: usize) -> (r: bool)
    requires
        size >= 1,
    ensures
        r == (count > 0 && count % size == 0),
{
    count > 0 && count % size == 0
}

/// A filename template with every `{}` placeholder replaced by the
/// value, scanned left to right without overlap.
pub open spec fn spec_render(t: Seq<u8>, v: Seq<u8>) -> Seq<u8>
    decreases t.len(),
{
    if t.len() >= 2 && t[0] == 123 && t[1] == 125 {
        v + spec_render(t.skip(2), v)
    } else if t.len() >= 1 {
        seq![t[0]] + spec_render(t.skip(1), v)
    } else {
        Seq::empty()
    }
}

/// Replace every `{}` in the template by the value.
pub fn render_template(template: &Vec<u8>, value: &Vec<u8>) -> (r: Vec<u8>)
    ensures
        r@ == spec_render(template@, value@),
{
    let t = template;
    let mut out: Vec<u8> = Vec::new();
    let mut i: usize = 0;
    proof {
        assert(t@.skip(0) =~= t@);
        assert(Seq::<u8>::empty() + spec_render(t@, value@) =~= spec_render(t@, value@));
    }
    while i < t.len()
        invariant
            0 <= i <= t.len(),
            spec_render(t@, value@) == out@ + spec_render(t@.skip(i as int), value@),
        decreases t.len() - i,
    {
        if t[i] == 123 && i + 1 < t.len() && t[i + 1] == 125 {
            proof {
                let rest = t@.skip(i as int);
                assert(rest[0] == t@[i as int]);
                assert(rest[1] == t@[i + 1]);
                assert(rest.skip(2) =~= t@.skip(i + 2));
                assert((out@ + value@) + spec_render(t@.skip(i + 2), value@) =~= out@ + (value@
                    + spec_render(t@.skip(i + 2), value@)));
            }
            let ghost prev = out@;
            let mut k: usize = 0;
            while k < value.len()
                invariant
                    0 <= k <= value.len(),
                    out@ == prev + value@.take(k as int),
                decreases value.len() - k,
            {
                proof {
                    assert((prev + value@.take(k as int)).push(value@[k as int]) =~= prev
                        + value@.take(k + 1));
                }
                out.push(value[k]);
                k = k + 1;
            }
            proof {
                assert(prev + value@.take(value@.len() as int) =~= prev + value@);
            }
            i = i + 2;
        } else {
            proof {
                let rest = t@.skip(i as int);
                assert(rest[0] == t@[i as int]);
                assert(rest.skip(1) =~= t@.skip(i + 1));
                assert((out@ + seq![t@[i as int]]) + spec_render(t@.skip(i + 1), value@) =~= out@
                    + (seq![t@[i as int]] + spec_render(t@.skip(i + 1), value@)));
                assert(out@.push(t@[i as int]) =~= out@ + seq![t@[i as int]]);
            }
            out.push(t[i]);
            i = i + 1;
        }
    }
    proof {
        assert(t@.skip(t@.len() as int) =~= Seq::<u8>::empty());
        assert(out@ + Seq::<u8>::empty() =~= out@);
    }
    out
}

/// Total fields of a record sequence.
pub open spec fn spec_fields_total(rs: Seq<Record>) -> int
    decreases rs.len(),
{
    if rs.len() == 0 {
        0
    } else {
        spec_fields_total(rs.drop_last()) + rs.last().fields@.len()
    }
}

/// Total subfields of a record sequence.
pub open spec fn spec_subfields_total(rs: Seq<Record>) -> int
    decreases rs.len(),
{
    if rs.len() == 0 {
        0
    } else {
        spec_subfields_total(rs.drop_last()) + spec_field_subfields(rs.last().fields@)
    }
}

/// Total subfields of one record's field sequence.
pub open spec fn spec_field_subfields(fs: Seq<crate::record::Field>) -> int
    decreases fs.len(),
{
    if fs.len() == 0 {
        0
    } else {
        spec_field_subfields(fs.drop_last()) + fs.last().subfields@.len()
    }
}

/// Count records, fields and subfields of a batch; the field and
/// subfield totals saturate at the machine word.
pub fn record_stats(records: &Vec<Record>) -> (r: (usize, u64, u64))
    ensures
        r.0 == records@.len(),
        r.1 == (if spec_fields_total(records@) <= u64::MAX {
            spec_fields_total(records@)
        } else {
            u64::MAX as int
        }),
        r.2 == (if spec_subfields_total(records@) <= u64::MAX {
            spec_subfields_total(records@)
        } else {
            u64::MAX as int
        }),
{
    let mut fields: u64 = 0;
    let mut subfields: u64 = 0;
    let mut i: usize = 0;
    while i < records.len()
        invariant
            0 <= i <= records.len(),
            fields == (if spec_fields_total(records@.take(i as int)) <= u64::MAX {
                spec_fields_total(records@.take(i as int))
            } else {
                u64::MAX as int
            }),
            subfields == (if spec_subfields_total(records@.take(i as int)) <= u64::MAX {
                spec_subfields_total(records@.take(i as int))
            } else {
                u64::MAX as int
            }),
        decreases records.len() - i,
    {
        proof {
            assert(records@.take(i + 1).drop_last() =~= records@.take(i as int));
            assert(records@.take(i + 1).last() == records@[i as int]);
            lemma_field_subfields_nonneg(records@[i as int].fields@);
            lemma_fields_total_nonneg(records@.take(i as int));
            lemma_subfields_total_nonneg(records@.take(i as int));
        }
        let r = &records[i];
        let nf = r.fields.len() as u64;
        fields = if fields <= u64::MAX - nf {
            fields + nf
        } else {
            u64::MAX
        };
        let ns = field_subfields_of(&r.fields);
        subfields = if subfields <= u64::MAX - ns {
            subfields + ns
        } else {
            u64::MAX
        };
        i = i + 1;
    }
    proof {
        assert(records@.take(records@.len() as int) =~= records@);
    }
    (records.len(), fields, subfields)
}

/// The field total is never negative.
proof fn lemma_fields_total_nonneg(rs: Seq<Record>)
    ensures
        spec_fields_total(rs) >= 0,
    decreases rs.len(),
{
    if rs.len() > 0 {
        lemma_fields_total_nonneg(rs.drop_last());
    }
}

/// The subfield total is never negative.
proof fn lemma_subfields_total_nonneg(rs: Seq<Record>)
    ensures
        spec_subfields_total(rs) >= 0,
    decreases rs.len(),
{
    if rs.len() > 0 {
        lemma_subfields_total_nonneg(rs.drop_last());
        lemma_field_subfields_nonneg(rs.last().fields@);
    }
}

/// The per-record subfield total is never negative.
proof fn lemma_field_subfields_nonneg(fs: Seq<crate::record::Field>)
    ensures
        spec_field_subfields(fs) >= 0,
    decreases fs.len(),
{
    if fs.len() > 0 {
        lemma_field_subfields_nonneg(fs.drop_last());
    }
}

/// Count the subfields of one record, saturating at the machine word.
fn field_subfields_of(fs: &Vec<crate::record::Field>) -> (r: u64)
    ensures
        r == (if spec_field_subfields(fs@) <= u64::MAX {
            spec_field_subfields(fs@)
        } else {
            u64::MAX as int
        }),
{
    let mut total: u64 = 0;
    let mut i: usize = 0;
    while i < fs.len()
        invariant
            0 <= i <= fs.len(),
            total == (if spec_field_subfields(fs@.take(i as int)) <= u64::MAX {
                spec_field_subfields(fs@.take(i as int))
            } else {
                u64::MAX as int
            }),
        decreases fs.len() - i,
    {
        proof {
            assert(fs@.take(i + 1).drop_last() =~= fs@.take(i as int));
            assert(fs@.take(i + 1).last() == fs@[i as int]);
            lemma_field_subfields_nonneg(fs@.take(i as int));
        }
        let ns = fs[i].subfields.len() as u64;
        total = if total <= u64::MAX - ns {
            total + ns
        } else {
            u64::MAX
        };
        i = i + 1;
    }
    proof {
        assert(fs@.take(fs@.len() as int) =~= fs@);
    }
    total
}

/// Lexicographic byte-string order.
pub open spec fn lex_lt(a: Seq<u8>, b: Seq<u8>) -> bool
    decreases a.len(),
{
    if b.len() == 0 {
        false
    } else if a.len() == 0 {
        true
    } else if a[0] < b[0] {
        true
    } else if a[0] > b[0] {
        false
    } else {
        lex_lt(a.skip(1), b.skip(1))
    }
}

/// Decide the lexicographic order of two byte strings.
pub fn lex_less(a: &Vec<u8>, b: &Vec<u8>) -> (r: bool)
    ensures
        r == lex_lt(a@, b@),
{
    let mut i: usize = 0;
    proof {
        assert(a@.skip(0) =~= a@);
        assert(b@.skip(0) =~= b@);
    }
    loop
        invariant
            0 <= i <= a.len(),
            i <= b.len(),
            lex_lt(a@, b@) == lex_lt(a@.skip(i as int), b@.skip(i as int)),
        decreases a.len() - i,
    {
        proof {
            let ra = a@.skip(i as int);
            let rb = b@.skip(i as int);
            if i < a.len() && i < b.len() {
                assert(ra[0] == a@[i as int]);
                assert(rb[0] == b@[i as int]);
                assert(ra.skip(1) =~= a@.skip(i + 1));
                assert(rb.skip(1) =~= b@.skip(i + 1));
            }
        }
        if i >= b.len() {
            return false;
        }
        if i >= a.len() {
            return true;
        }
        if a[i] < b[i] {
            return true;
        }
        if a[i] > b[i] {
            return false;
        }
        i = i + 1;
    }
}

/// Which frequency-table row comes first: by descending count (or
/// ascending, in reverse mode), ties broken by ascending key order.
pub fn freq_row_precedes(k1: &Vec<u8>, c1: u64, k2: &Vec<u8>, c2: u64, reverse: bool) -> (r:
    bool)
    ensures
        reverse ==> r == (c1 < c2 || (c1 == c2 && lex_lt(k1@, k2@))),
        !reverse ==> r == (c1 > c2 || (c1 == c2 && lex_lt(k1@, k2@))),
{
    if c1 == c2 {
        lex_less(k1, k2)
    } else if reverse {
        c1 < c2
    } else {
        c1 > c2
    }
}

/// Whether the frequency listing stops at row `i`: when a positive row
/// limit is exhausted, or the row's count does not exceed the
/// threshold.
pub fn freq_row_stops(i: usize, limit: usize, count: u64, threshold: u64) -> (r: bool)
    ensures
        r == ((limit > 0 && i >= limit) || count <= threshold),
{
    (limit > 0 && i >= limit) || count <= threshold
}

/// The distinct values of a list, first occurrence first.
pub open spec fn spec_dedup(vs: Seq<Seq<u8>>) -> Seq<Seq<u8>>
    decreases vs.len(),
{
    if vs.len() == 0 {
        Seq::empty()
    } else {
        let rest = spec_dedup(vs.drop_last());
        if rest.contains(vs.last()) {
            rest
        } else {
            rest.push(vs.last())
        }
    }
}

/// Deduplication keeps exactly the values of its input.
pub proof fn lemma_dedup_same_values(vs: Seq<Seq<u8>>)
    ensures
        forall|x: Seq<u8>| spec_dedup(vs).contains(x) == vs.contains(x),
    decreases vs.len(),
{
    if vs.len() > 0 {
        lemma_dedup_same_values(vs.drop_last());
        let rest = spec_dedup(vs.drop_last());
        assert forall|x: Seq<u8>| spec_dedup(vs).contains(x) == vs.contains(x) by {
            if spec_dedup(vs).contains(x) {
                if rest.contains(x) {
                    assert(vs.drop_last().contains(x));
                    let k = choose|k: int|
                        0 <= k < vs.drop_last().len() && vs.drop_last()[k] == x;
                    assert(vs[k] == x);
                } else {
                    assert(x == vs.last());
                    assert(vs[vs.len() - 1] == x);
                }
            }
            if vs.contains(x) {
                let k = choose|k: int| 0 <= k < vs.len() && vs[k] == x;
                if k < vs.len() - 1 {
                    assert(vs.drop_last()[k] == x);
                    assert(vs.drop_last().contains(x));
                    assert(rest.contains(x));
                } else {
                    assert(x == vs.last());
                }
                if rest.contains(x) {
                    let w = choose|w: int| 0 <= w < rest.len() && rest[w] == x;
                    assert(spec_dedup(vs)[w] == x);
                } else {
                    assert(spec_dedup(vs).last() == x);
                }
            }
        }
    }
}

/// No value survives deduplication twice.
pub proof fn lemma_dedup_distinct(vs: Seq<Seq<u8>>)
    ensures
        forall|i: int, j: int|
            0 <= i < j < spec_dedup(vs).len() ==> spec_dedup(vs)[i] != spec_dedup(vs)[j],
    decreases vs.len(),
{
    if vs.len() > 0 {
        lemma_dedup_distinct(vs.drop_last());
        let rest = spec_dedup(vs.drop_last());
        if !rest.contains(vs.last()) {
            assert forall|i: int, j: int|
                0 <= i < j < spec_dedup(vs).len() implies spec_dedup(vs)[i]
                != spec_dedup(vs)[j] by {
                if j == spec_dedup(vs).len() - 1 {
                    assert(spec_dedup(vs)[j] == vs.last());
                    assert(spec_dedup(vs)[i] == rest[i]);
                    assert(!rest.contains(vs.last()));
                }
            }
        }
    }
}

/// The distinct values of a batch, first occurrence first.
pub fn dedup_values(values: &Vec<Vec<u8>>) -> (r: Vec<Vec<u8>>)
    ensures
        r.deep_view() == spec_dedup(values.deep_view()),
{
    let mut out: Vec<Vec<u8>> = Vec::new();
    let mut i: usize = 0;
    proof {
        assert(values.deep_view().take(0) =~~= Seq::<Seq<u8>>::empty());
        assert(out.deep_view() =~~= spec_dedup(values.deep_view().take(0)));
    }
    while i < values.len()
        invariant
            0 <= i <= values.len(),
            out.deep_view() == spec_dedup(values.deep_view().take(i as int)),
        decreases values.len() - i,
    {
        let mut seen: bool = false;
        let mut j: usize = 0;
        while j < out.len()
            invariant
                0 <= j <= out.len(),
                i < values.len(),
                seen == exists|k: int|
                    0 <= k < j && out.deep_view()[k] == values.deep_view()[i as int],
            decreases out.len() - j,
        {
            if bytes_eq(&out[j], &values[i]) {
                proof {
                    assert(out.deep_view()[j as int] == out@[j as int]@);
                    assert(values.deep_view()[i as int] == values@[i as int]@);
                }
                seen = true;
            }
            proof {
                assert(out.deep_view()[j as int] == out@[j as int]@);
                assert(values.deep_view()[i as int] == values@[i as int]@);
            }
            j = j + 1;
        }
        proof {
            assert(seen == out.deep_view().contains(values.deep_view()[i as int]));
            let upto = values.deep_view().take(i + 1);
            assert(upto.drop_last() =~~= values.deep_view().take(i as int));
            assert(upto.last() == values.deep_view()[i as int]);
        }
        let ghost pre = out.deep_view();
        if !seen {
            let v = values[i].clone();
            proof {
                assert(v@ == values@[i as int]@);
                assert(values.deep_view()[i as int] == values@[i as int]@);
            }
            out.push(v);
            proof {
                assert(out.deep_view() =~~= pre.push(values.deep_view()[i as int]));
            }
        }
        i = i + 1;
    }
    proof {
        assert(values.deep_view().take(values.deep_view().len() as int) =~~= values.deep_view());
    }
    out
}

} // verus!
