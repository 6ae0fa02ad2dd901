//! The protobuf wire format the snapshot records are written in: varints,
//! tags, and the fields of a message.
use crate::http_utils::string_from_utf8;
use vstd::prelude::*;
use vstd::utf8::{decode_utf8, encode_utf8, valid_utf8};

verus! {

/// 2^64.
pub open spec fn two64() -> int {
    0x1_0000_0000_0000_0000
}

/// The varint encoding of `v`: seven bits a byte, least significant first, the
/// top bit set on every byte but the last.
pub open spec fn varint(v: nat) -> Seq<u8>
    decreases v,
{
    if v < 128 {
        seq![v as u8]
    } else {
        seq![(v % 128 + 128) as u8] + varint(v / 128)
    }
}

/// The varint at the start of `b`, read over at most `depth` bytes: its value
/// and length. None where the bytes run out, the varint is longer, or its
/// value does not fit in 64 bits.
pub open spec fn varint_prefix(b: Seq<u8>, depth: nat) -> Option<(int, int)>
    decreases depth,
{
    if b.len() == 0 || depth == 0 {
        None
    } else if b[0] < 128 {
        Some((b[0] as int, 1))
    } else {
        match varint_prefix(b.drop_first(), (depth - 1) as nat) {
            Some(p) => {
                let w = (b[0] - 128) + 128 * p.0;
                if w < two64() {
                    Some((w, p.1 + 1))
                } else {
                    None
                }
            },
            None => None,
        }
    }
}

/// The varint at the start of `b` (at most ten bytes).
pub open spec fn read_varint_spec(b: Seq<u8>) -> Option<(int, int)> {
    varint_prefix(b, 10)
}

/// Reads the varint at `pos`: its value and the position after it.
pub fn read_varint(b: &Vec<u8>, pos: usize) -> (r: Option<(u64, usize)>)
    requires
        pos <= b@.len(),
    ensures
        match read_varint_spec(b@.skip(pos as int)) {
            Some(p) => r matches Some(x) && x.0 == p.0 && x.1 == pos + p.1 && pos < x.1 <= b@.len(),
            None => r is None,
        },
{
    read_varint_depth(b, pos, 10)
}

fn read_varint_depth(b: &Vec<u8>, pos: usize, depth: u64) -> (r: Option<(u64, usize)>)
    requires
        pos <= b@.len(),
    ensures
        match varint_prefix(b@.skip(pos as int), depth as nat) {
            Some(p) => r matches Some(x) && x.0 == p.0 && x.1 == pos + p.1 && pos < x.1 <= b@.len(),
            None => r is None,
        },
    decreases depth,
{
    let ghost s = b@.skip(pos as int);
    if pos >= b.len() || depth == 0 {
        return None;
    }
    proof {
        assert(s[0] == b@[pos as int]);
    }
    let first = b[pos];
    if first < 128 {
        return Some((first as u64, pos + 1));
    }
    proof {
        assert(s.drop_first() == b@.skip(pos + 1));
    }
    match read_varint_depth(b, pos + 1, depth - 1) {
        Some((v, next)) => {
            let low = (first - 128) as u64;
            if v > (u64::MAX - low) / 128 {
                proof {
                    assert(low + 128 * v > u64::MAX) by (nonlinear_arith)
                        requires
                            v > (u64::MAX - low) / 128,
                            low < 128,
                    ;
                }
                None
            } else {
                proof {
                    assert(low + 128 * v <= u64::MAX) by (nonlinear_arith)
                        requires
                            v <= (u64::MAX - low) / 128,
                            low < 128,
                    ;
                }
                Some((low + 128 * v, next))
            }
        },
        None => None,
    }
}

/// Appends the varint encoding of `v`.
pub fn push_varint(out: &mut Vec<u8>, v: u64)
    ensures
        final(out)@ == old(out)@ + varint(v as nat),
    decreases v,
{
    if v < 128 {
        out.push(v as u8);
        proof {
            assert(final(out)@ =~= old(out)@ + varint(v as nat));
        }
    } else {
        let ghost before = out@;
        out.push((v % 128 + 128) as u8);
        push_varint(out, v / 128);
        proof {
            assert(out@ =~= before + varint(v as nat));
        }
    }
}

/// The number of bytes of a varint below `bound(k)` is at most `k`.
pub open spec fn bound(k: nat) -> nat
    decreases k,
{
    if k == 0 {
        1
    } else {
        128 * bound((k - 1) as nat)
    }
}

/// A value below `bound(k)` takes at most `k` bytes, and at least one.
proof fn lemma_varint_len(v: nat, k: nat)
    requires
        k >= 1,
        v < bound(k),
    ensures
        1 <= varint(v).len() <= k,
    decreases k,
{
    if v >= 128 {
        assert(k >= 2) by {
            if k == 1 {
                assert(bound(1) == 128 * bound(0));
                assert(bound(0) == 1);
            }
        }
        assert(v / 128 < bound((k - 1) as nat)) by (nonlinear_arith)
            requires
                v < 128 * bound((k - 1) as nat),
        ;
        lemma_varint_len(v / 128, (k - 1) as nat);
    }
}

/// Reading a varint back: the encoding of `v`, followed by anything, reads as
/// `v` over the encoding's length, given enough depth.
pub proof fn lemma_varint_round_trip(v: nat, rest: Seq<u8>, depth: nat)
    requires
        v < two64(),
        varint(v).len() <= depth,
    ensures
        varint_prefix(varint(v) + rest, depth) == Some((v as int, varint(v).len() as int)),
    decreases v,
{
    let b = varint(v) + rest;
    if v < 128 {
        assert(b[0] == v as u8);
    } else {
        let tail = varint(v / 128);
        assert(b[0] == (v % 128 + 128) as u8);
        assert(b.drop_first() == tail + rest);
        lemma_varint_round_trip(v / 128, rest, (depth - 1) as nat);
        assert((v % 128) + 128 * (v / 128) == v);
    }
}

/// Every value below 2^64 has a varint of at most ten bytes.
pub proof fn lemma_varint_fits(v: nat)
    requires
        v < two64(),
    ensures
        1 <= varint(v).len() <= 10,
{
    reveal_with_fuel(bound, 11);
    assert(bound(10) == 1180591620717411303424);
    lemma_varint_len(v, 10);
}


/// A field as the wire carries it: its tag (field number and wire kind), the
/// value of a varint field, and the bytes of a length-delimited or fixed-size one.
pub struct WireField {
    pub tag: int,
    pub varint: int,
    pub bytes: Seq<u8>,
}

/// The wire kind of a tag: 0 varint, 1 eight bytes, 2 length-delimited, 5 four bytes.
pub open spec fn wire_kind(tag: int) -> int {
    tag % 8
}

/// The field at the start of `b` and the number of bytes it takes; None where
/// it is cut short or of a kind that is not read.
pub open spec fn next_field(b: Seq<u8>) -> Option<(WireField, int)> {
    match read_varint_spec(b) {
        None => None,
        Some(t) => {
            let rest = b.skip(t.1);
            let kind = wire_kind(t.0);
            if kind == 0 {
                match read_varint_spec(rest) {
                    Some(v) => Some((WireField { tag: t.0, varint: v.0, bytes: Seq::empty() }, t.1 + v.1)),
                    None => None,
                }
            } else if kind == 2 {
                match read_varint_spec(rest) {
                    Some(l) => if l.1 + l.0 <= rest.len() {
                        Some(
                            (
                                WireField { tag: t.0, varint: 0, bytes: rest.subrange(l.1, l.1 + l.0) },
                                t.1 + l.1 + l.0,
                            ),
                        )
                    } else {
                        None
                    },
                    None => None,
                }
            } else if kind == 1 {
                if rest.len() >= 8 {
                    Some((WireField { tag: t.0, varint: 0, bytes: rest.take(8) }, t.1 + 8))
                } else {
                    None
                }
            } else if kind == 5 {
                if rest.len() >= 4 {
                    Some((WireField { tag: t.0, varint: 0, bytes: rest.take(4) }, t.1 + 4))
                } else {
                    None
                }
            } else {
                None
            }
        },
    }
}

/// The fields of a message, in order; None where some field cannot be read.
pub open spec fn wire_fields(b: Seq<u8>) -> Option<Seq<WireField>>
    decreases b.len(),
{
    if b.len() == 0 {
        Some(Seq::empty())
    } else {
        match next_field(b) {
            Some(p) => if 0 < p.1 <= b.len() {
                match wire_fields(b.skip(p.1)) {
                    Some(fs) => Some(seq![p.0] + fs),
                    None => None,
                }
            } else {
                None
            },
            None => None,
        }
    }
}

/// Where a field was read: its tag, varint value, the span of its bytes, and
/// the position after it.
pub struct FieldAt {
    pub tag: u64,
    pub varint: u64,
    pub start: usize,
    pub end: usize,
    pub next: usize,
}

/// Reads the field at `pos`.
pub fn read_field(b: &Vec<u8>, pos: usize) -> (r: Option<FieldAt>)
    requires
        pos <= b@.len(),
    ensures
        match next_field(b@.skip(pos as int)) {
            Some(p) => r matches Some(f) && f.tag == p.0.tag && f.varint == p.0.varint && f.start
                <= f.end <= b@.len() && b@.subrange(f.start as int, f.end as int) == p.0.bytes
                && f.next == pos + p.1 && pos < f.next <= b@.len(),
            None => r is None,
        },
{
    let ghost s = b@.skip(pos as int);
    let (tag, after_tag) = match read_varint(b, pos) {
        Some(t) => t,
        None => {
            return None;
        },
    };
    proof {
        lemma_varint_prefix_bounds(s, 10);
        let t = read_varint_spec(s)->0;
        assert(b@.skip(after_tag as int) =~= s.skip(t.1));
    }
    let kind = tag % 8;
    if kind == 0 {
        match read_varint(b, after_tag) {
            Some((v, next)) => {
                proof {
                    lemma_varint_prefix_bounds(b@.skip(after_tag as int), 10);
                    assert(b@.subrange(after_tag as int, after_tag as int) =~= Seq::<u8>::empty());
                }
                Some(FieldAt { tag, varint: v, start: after_tag, end: after_tag, next })
            },
            None => None,
        }
    } else if kind == 2 {
        match read_varint(b, after_tag) {
            Some((len, start)) => {
                proof {
                    lemma_varint_prefix_bounds(b@.skip(after_tag as int), 10);
                }
                if len > (b.len() - start) as u64 {
                    return None;
                }
                let end = start + len as usize;
                proof {
                    assert(b@.subrange(start as int, end as int) =~= b@.skip(after_tag as int).subrange(
                        start - after_tag,
                        start - after_tag + len,
                    ));
                }
                Some(FieldAt { tag, varint: 0, start, end, next: end })
            },
            None => None,
        }
    } else if kind == 1 || kind == 5 {
        let width: usize = if kind == 1 {
            8
        } else {
            4
        };
        if width > b.len() - after_tag {
            return None;
        }
        let end = after_tag + width;
        proof {
            assert(b@.subrange(after_tag as int, end as int) =~= b@.skip(after_tag as int).take(width as int));
        }
        Some(FieldAt { tag, varint: 0, start: after_tag, end, next: end })
    } else {
        None
    }
}

/// A varint read takes at least one byte and no more than there are.
proof fn lemma_varint_prefix_bounds(b: Seq<u8>, depth: nat)
    ensures
        varint_prefix(b, depth) matches Some(p) ==> 0 < p.1 <= b.len() && 0 <= p.0 < two64(),
    decreases depth,
{
    if b.len() > 0 && depth > 0 && b[0] >= 128 {
        lemma_varint_prefix_bounds(b.drop_first(), (depth - 1) as nat);
    }
}

/// A field as it is written: the tag's varint, then the value's varint, or the
/// length's varint and the bytes.
pub open spec fn field_bytes(f: WireField) -> Seq<u8> {
    if wire_kind(f.tag) == 0 {
        varint(f.tag as nat) + varint(f.varint as nat)
    } else {
        varint(f.tag as nat) + varint(f.bytes.len()) + f.bytes
    }
}

/// Fields as they are written, one after the other.
#[verifier::opaque]
pub open spec fn fields_bytes(fs: Seq<WireField>) -> Seq<u8>
    decreases fs.len(),
{
    if fs.len() == 0 {
        Seq::empty()
    } else {
        fields_bytes(fs.drop_last()) + field_bytes(fs.last())
    }
}

/// A field that is written the way it is read back: a varint field (with no
/// bytes) or a length-delimited one (with no varint value), everything in 64 bits.
pub open spec fn writable(f: WireField) -> bool {
    &&& 0 <= f.tag < two64()
    &&& {
        ||| (wire_kind(f.tag) == 0 && 0 <= f.varint < two64() && f.bytes.len() == 0)
        ||| (wire_kind(f.tag) == 2 && f.varint == 0 && f.bytes.len() < two64())
    }
}

/// A varint field.
pub open spec fn varint_field(tag: int, v: int) -> WireField {
    WireField { tag, varint: v, bytes: Seq::empty() }
}

/// A length-delimited field.
pub open spec fn bytes_field(tag: int, data: Seq<u8>) -> WireField {
    WireField { tag, varint: 0, bytes: data }
}

/// Appends a varint field.
pub fn push_varint_field(out: &mut Vec<u8>, tag: u64, v: u64)
    requires
        wire_kind(tag as int) == 0,
    ensures
        final(out)@ == old(out)@ + field_bytes(varint_field(tag as int, v as int)),
{
    push_varint(out, tag);
    push_varint(out, v);
    proof {
        assert(final(out)@ =~= old(out)@ + field_bytes(varint_field(tag as int, v as int)));
    }
}

/// Appends a length-delimited field.
pub fn push_bytes_field(out: &mut Vec<u8>, tag: u64, data: &[u8])
    requires
        wire_kind(tag as int) == 2,
    ensures
        final(out)@ == old(out)@ + field_bytes(bytes_field(tag as int, data@)),
{
    push_varint(out, tag);
    push_varint(out, data.len() as u64);
    let ghost before = out@;
    let mut i: usize = 0;
    while i < data.len()
        invariant
            i <= data@.len(),
            out@ == before + data@.take(i as int),
        decreases data.len() - i,
    {
        out.push(data[i]);
        proof {
            assert(data@.take(i + 1) == data@.take(i as int).push(data@[i as int]));
        }
        i = i + 1;
    }
    proof {
        assert(data@.take(data@.len() as int) == data@);
        assert(final(out)@ =~= old(out)@ + field_bytes(bytes_field(tag as int, data@)));
    }
}

/// A written field reads back as itself, taking exactly its bytes.
pub proof fn lemma_next_field_written(f: WireField, rest: Seq<u8>)
    requires
        writable(f),
    ensures
        next_field(field_bytes(f) + rest) == Some((f, field_bytes(f).len() as int)),
{
    let b = field_bytes(f) + rest;
    let vt = varint(f.tag as nat);
    lemma_varint_fits(f.tag as nat);
    if wire_kind(f.tag) == 0 {
        let vv = varint(f.varint as nat);
        lemma_varint_fits(f.varint as nat);
        assert(b =~= vt + (vv + rest));
        lemma_varint_round_trip(f.tag as nat, vv + rest, 10);
        assert(b.skip(vt.len() as int) =~= vv + rest);
        lemma_varint_round_trip(f.varint as nat, rest, 10);
        assert(f.bytes =~= Seq::<u8>::empty());
    } else {
        let vl = varint(f.bytes.len());
        lemma_varint_fits(f.bytes.len());
        assert(b =~= vt + (vl + (f.bytes + rest)));
        lemma_varint_round_trip(f.tag as nat, vl + (f.bytes + rest), 10);
        let r2 = b.skip(vt.len() as int);
        assert(r2 =~= vl + (f.bytes + rest));
        lemma_varint_round_trip(f.bytes.len(), f.bytes + rest, 10);
        assert(r2.subrange(vl.len() as int, (vl.len() + f.bytes.len()) as int) =~= f.bytes);
    }
}

/// Written fields read back as themselves.
pub proof fn lemma_fields_round_trip(fs: Seq<WireField>)
    requires
        forall|i: int| 0 <= i < fs.len() ==> writable(#[trigger] fs[i]),
    ensures
        wire_fields(fields_bytes(fs)) == Some(fs),
    decreases fs.len(),
{
    reveal(fields_bytes);
    lemma_fields_bytes_front(fs);
    if fs.len() > 0 {
        let f = fs[0];
        let rest = fs.drop_first();
        let b = fields_bytes(fs);
        assert(b == field_bytes(f) + fields_bytes(rest));
        lemma_next_field_written(f, fields_bytes(rest));
        lemma_varint_fits(f.tag as nat);
        assert(field_bytes(f).len() > 0);
        assert(b.skip(field_bytes(f).len() as int) =~= fields_bytes(rest));
        assert forall|i: int| 0 <= i < rest.len() implies writable(#[trigger] rest[i]) by {
            assert(rest[i] == fs[i + 1]);
        }
        lemma_fields_round_trip(rest);
        assert(seq![f] + rest =~= fs);
    } else {
        assert(fields_bytes(fs) =~= Seq::<u8>::empty());
    }
}

/// Fields written one after the other start with the first one.
pub proof fn lemma_fields_bytes_front(fs: Seq<WireField>)
    ensures
        fs.len() > 0 ==> fields_bytes(fs) == field_bytes(fs[0]) + fields_bytes(fs.drop_first()),
    decreases fs.len(),
{
    reveal(fields_bytes);
    if fs.len() > 1 {
        let p = fs.drop_last();
        lemma_fields_bytes_front(p);
        assert(p.drop_first() == fs.drop_first().drop_last());
        assert(p[0] == fs[0]);
        assert(fields_bytes(fs.drop_first()) == fields_bytes(fs.drop_first().drop_last()) + field_bytes(
            fs.drop_first().last(),
        ));
        assert(fields_bytes(fs) =~= field_bytes(fs[0]) + fields_bytes(fs.drop_first()));
    } else if fs.len() == 1 {
        assert(fs.drop_last() =~= Seq::<WireField>::empty());
        assert(fs.drop_first() =~= Seq::<WireField>::empty());
        assert(fields_bytes(fs) =~= field_bytes(fs[0]) + fields_bytes(fs.drop_first()));
    }
}

/// The last field with this tag; a later field overrides an earlier one.
pub open spec fn last_field(fs: Seq<WireField>, tag: int) -> Option<WireField>
    decreases fs.len(),
{
    if fs.len() == 0 {
        None
    } else if fs.last().tag == tag {
        Some(fs.last())
    } else {
        last_field(fs.drop_last(), tag)
    }
}

/// The varint value of the last field with this tag, 0 where there is none.
pub open spec fn varint_of(fs: Seq<WireField>, tag: int) -> int {
    match last_field(fs, tag) {
        Some(f) => f.varint,
        None => 0,
    }
}

/// The text of the last field with this tag, empty where there is none.
pub open spec fn text_of(fs: Seq<WireField>, tag: int) -> Seq<char> {
    match last_field(fs, tag) {
        Some(f) => decode_utf8(f.bytes),
        None => Seq::empty(),
    }
}

/// Every field whose tag is a text tag holds valid UTF-8.
pub open spec fn texts_valid(fs: Seq<WireField>, text_tags: Set<int>) -> bool
    decreases fs.len(),
{
    if fs.len() == 0 {
        true
    } else {
        texts_valid(fs.drop_last(), text_tags) && (text_tags.contains(fs.last().tag) ==> valid_utf8(
            fs.last().bytes,
        ))
    }
}

/// The field, appended where the condition holds.
#[verifier::opaque]
pub open spec fn opt_push(fs: Seq<WireField>, c: bool, f: WireField) -> Seq<WireField> {
    if c {
        fs.push(f)
    } else {
        fs
    }
}

/// The text a field's bytes hold, where they are valid UTF-8.
pub fn text_at(b: &Vec<u8>, f: &FieldAt) -> (r: Option<String>)
    requires
        f.start <= f.end <= b@.len(),
    ensures
        r is Some <==> valid_utf8(b@.subrange(f.start as int, f.end as int)),
        r is Some ==> r->0@ == decode_utf8(b@.subrange(f.start as int, f.end as int)),
{
    string_from_utf8(bytes_at(b, f.start, f.end))
}

/// The bytes from `start` up to `end`.
pub fn bytes_at(b: &Vec<u8>, start: usize, end: usize) -> (r: Vec<u8>)
    requires
        start <= end <= b@.len(),
    ensures
        r@ == b@.subrange(start as int, end as int),
{
    let mut out: Vec<u8> = Vec::new();
    let mut i: usize = start;
    while i < end
        invariant
            start <= i <= end,
            end <= b@.len(),
            out@ == b@.subrange(start as int, i as int),
        decreases end - i,
    {
        out.push(b[i]);
        proof {
            assert(b@.subrange(start as int, i + 1) == b@.subrange(start as int, i as int).push(b@[i as int]));
        }
        i = i + 1;
    }
    out
}

/// A message framed as a record: its length as a varint, then its bytes.
pub open spec fn framed(m: Seq<u8>) -> Seq<u8> {
    varint(m.len()) + m
}

/// The message of a record: the bytes its leading length names; None where
/// the length cannot be read or runs past the end.
pub open spec fn unframed(b: Seq<u8>) -> Option<Seq<u8>> {
    match read_varint_spec(b) {
        Some(l) => if l.1 + l.0 <= b.len() {
            Some(b.subrange(l.1, l.1 + l.0))
        } else {
            None
        },
        None => None,
    }
}

/// Where the message of a record lies: its start and end.
pub fn unframe(b: &Vec<u8>) -> (r: Option<(usize, usize)>)
    ensures
        match unframed(b@) {
            Some(m) => r matches Some(p) && p.0 <= p.1 <= b@.len() && b@.subrange(p.0 as int, p.1 as int) == m,
            None => r is None,
        },
{
    match read_varint(b, 0) {
        Some((len, start)) => {
            proof {
                assert(b@.skip(0) == b@);
            }
            if len > (b.len() - start) as u64 {
                None
            } else {
                Some((start, start + len as usize))
            }
        },
        None => {
            proof {
                assert(b@.skip(0) == b@);
            }
            None
        },
    }
}

/// Frames a message as a record.
pub fn frame(m: &Vec<u8>) -> (r: Vec<u8>)
    ensures
        r@ == framed(m@),
{
    let mut out: Vec<u8> = Vec::new();
    push_varint(&mut out, m.len() as u64);
    let ghost before = out@;
    let mut i: usize = 0;
    while i < m.len()
        invariant
            i <= m@.len(),
            out@ == before + m@.take(i as int),
        decreases m.len() - i,
    {
        out.push(m[i]);
        proof {
            assert(m@.take(i + 1) == m@.take(i as int).push(m@[i as int]));
        }
        i = i + 1;
    }
    proof {
        assert(m@.take(m@.len() as int) == m@);
        assert(out@ =~= framed(m@));
    }
    out
}

/// A framed message unframes to itself.
pub proof fn lemma_frame_round_trip(m: Seq<u8>)
    requires
        m.len() < two64(),
    ensures
        unframed(framed(m)) == Some(m),
{
    lemma_varint_fits(m.len());
    lemma_varint_round_trip(m.len(), m, 10);
    let v = varint(m.len());
    assert(framed(m).subrange(v.len() as int, (v.len() + m.len()) as int) =~= m);
}

/// Reading one more field: where the whole message's fields are those read so
/// far followed by the fields from here, they are also those read so far with
/// this field, followed by the fields after it.
pub proof fn lemma_fields_advance(
    whole: Option<Seq<WireField>>,
    done: Seq<WireField>,
    s: Seq<u8>,
    next_rest: Seq<u8>,
)
    requires
        whole == match wire_fields(s) {
            Some(rest) => Some(done + rest),
            None => None::<Seq<WireField>>,
        },
        s.len() > 0,
        next_field(s) is Some,
        0 < next_field(s).unwrap().1 <= s.len(),
        next_rest == s.skip(next_field(s).unwrap().1),
    ensures
        whole == match wire_fields(next_rest) {
            Some(rest) => Some(done.push(next_field(s).unwrap().0) + rest),
            None => None::<Seq<WireField>>,
        },
{
    let f = next_field(s).unwrap().0;
    match wire_fields(next_rest) {
        Some(r) => {
            assert(done + (seq![f] + r) =~= done.push(f) + r);
        },
        None => {},
    }
}

/// The texts of a sequence of fields are valid where those of a longer one are.
pub proof fn lemma_texts_valid_prefix(a: Seq<WireField>, b: Seq<WireField>, tags: Set<int>)
    requires
        texts_valid(a + b, tags),
    ensures
        texts_valid(a, tags),
    decreases b.len(),
{
    if b.len() > 0 {
        assert((a + b).drop_last() =~= a + b.drop_last());
        lemma_texts_valid_prefix(a, b.drop_last(), tags);
    } else {
        assert(a + b =~= a);
    }
}

/// A text field that is not valid UTF-8 spoils the whole message.
pub proof fn lemma_text_field_invalid(
    whole: Option<Seq<WireField>>,
    done: Seq<WireField>,
    f: WireField,
    rest: Option<Seq<WireField>>,
    tags: Set<int>,
)
    requires
        whole == match rest {
            Some(r) => Some(done.push(f) + r),
            None => None::<Seq<WireField>>,
        },
        tags.contains(f.tag),
        !valid_utf8(f.bytes),
    ensures
        !(whole matches Some(w) && texts_valid(w, tags)),
{
    if let Some(r) = rest {
        if texts_valid(done.push(f) + r, tags) {
            lemma_texts_valid_prefix(done.push(f), r, tags);
        }
    }
}

/// The last field with a tag after appending a field where a condition holds.
pub proof fn lemma_last_field_opt_push(fs: Seq<WireField>, c: bool, f: WireField)
    ensures
        forall|t: int|
            #[trigger] last_field(opt_push(fs, c, f), t) == if c && f.tag == t {
                Some(f)
            } else {
                last_field(fs, t)
            },
{
    reveal(opt_push);
    if c {
        assert(fs.push(f).drop_last() == fs);
    }
}

/// Appending a writable field keeps every field writable and the texts valid.
pub proof fn lemma_opt_push_writable(fs: Seq<WireField>, c: bool, f: WireField, tags: Set<int>)
    requires
        forall|i: int| 0 <= i < fs.len() ==> writable(#[trigger] fs[i]),
        texts_valid(fs, tags),
        c ==> writable(f),
        c && tags.contains(f.tag) ==> valid_utf8(f.bytes),
    ensures
        forall|i: int| 0 <= i < opt_push(fs, c, f).len() ==> writable(#[trigger] opt_push(fs, c, f)[i]),
        texts_valid(opt_push(fs, c, f), tags),
{
    reveal(opt_push);
    if c {
        assert(fs.push(f).drop_last() == fs);
        assert forall|i: int| 0 <= i < fs.push(f).len() implies writable(#[trigger] fs.push(f)[i]) by {
            if i < fs.len() {
                assert(fs.push(f)[i] == fs[i]);
            }
        }
    }
}

/// Appends a varint field where `c` holds, keeping the bytes those of the fields.
pub(crate) fn put_varint(out: &mut Vec<u8>, Ghost(fs): Ghost<Seq<WireField>>, c: bool, tag: u64, v: u64)
    requires
        old(out)@ == fields_bytes(fs),
        wire_kind(tag as int) == 0,
    ensures
        final(out)@ == fields_bytes(opt_push(fs, c, varint_field(tag as int, v as int))),
{
    proof {
        reveal(opt_push);
        reveal(fields_bytes);
    }
    if c {
        push_varint_field(out, tag, v);
        proof {
            let f = varint_field(tag as int, v as int);
            assert(fs.push(f).drop_last() == fs);
        }
    }
}

/// The UTF-8 bytes of a text.
#[verifier::opaque]
pub open spec fn utf8_bytes(s: Seq<char>) -> Seq<u8> {
    encode_utf8(s)
}

/// The bytes of a text are valid UTF-8 and decode back to it.
pub proof fn lemma_utf8_bytes(s: Seq<char>)
    ensures
        valid_utf8(utf8_bytes(s)),
        decode_utf8(utf8_bytes(s)) == s,
{
    reveal(utf8_bytes);
    vstd::utf8::encode_utf8_valid_utf8(s);
    vstd::utf8::encode_utf8_decode_utf8(s);
}

/// Appends a text field where the text is not empty, keeping the bytes those of the fields.
pub(crate) fn put_text(out: &mut Vec<u8>, Ghost(fs): Ghost<Seq<WireField>>, tag: u64, text: &String)
    requires
        old(out)@ == fields_bytes(fs),
        wire_kind(tag as int) == 2,
    ensures
        final(out)@ == fields_bytes(
            opt_push(fs, text@.len() > 0, bytes_field(tag as int, utf8_bytes(text@))),
        ),
{
    proof {
        reveal(opt_push);
        reveal(utf8_bytes);
        reveal(fields_bytes);
    }
    if !text.as_str().is_empty() {
        push_bytes_field(out, tag, text.as_str().as_bytes());
        proof {
            let f = bytes_field(tag as int, utf8_bytes(text@));
            assert(fs.push(f).drop_last() == fs);
        }
    }
}

/// A text takes at most four bytes a character.
pub proof fn lemma_utf8_bytes_len(s: Seq<char>)
    ensures
        utf8_bytes(s).len() <= 4 * s.len(),
    decreases s.len(),
{
    reveal(utf8_bytes);
    if s.len() > 0 {
        lemma_utf8_bytes_len(s.drop_first());
    }
}

/// The bytes of every field with this tag, in order: a repeated field.
pub open spec fn repeated_of(fs: Seq<WireField>, tag: int) -> Seq<Seq<u8>>
    decreases fs.len(),
{
    if fs.len() == 0 {
        Seq::empty()
    } else if fs.last().tag == tag {
        repeated_of(fs.drop_last(), tag).push(fs.last().bytes)
    } else {
        repeated_of(fs.drop_last(), tag)
    }
}

/// The fields `base` followed by one length-delimited field with this tag for
/// each item, in order.
pub open spec fn repeated_fields(base: Seq<WireField>, tag: int, items: Seq<Seq<u8>>) -> Seq<
    WireField,
>
    decreases items.len(),
{
    if items.len() == 0 {
        base
    } else {
        repeated_fields(base, tag, items.drop_last()).push(bytes_field(tag, items.last()))
    }
}

/// The repeated field of a sequence of fields followed by others is that of the
/// first followed by that of the others.
pub proof fn lemma_repeated_of_concat(a: Seq<WireField>, b: Seq<WireField>, tag: int)
    ensures
        repeated_of(a + b, tag) == repeated_of(a, tag) + repeated_of(b, tag),
    decreases b.len(),
{
    if b.len() == 0 {
        assert(a + b =~= a);
        assert(repeated_of(a, tag) + repeated_of(b, tag) =~= repeated_of(a, tag));
    } else {
        assert((a + b).drop_last() =~= a + b.drop_last());
        lemma_repeated_of_concat(a, b.drop_last(), tag);
        if b.last().tag == tag {
            assert(repeated_of(a, tag) + repeated_of(b, tag) =~= (repeated_of(a, tag)
                + repeated_of(b.drop_last(), tag)).push(b.last().bytes));
        }
    }
}

/// A field with another tag, appended or not, leaves a repeated field as it is.
pub proof fn lemma_repeated_of_opt_push(fs: Seq<WireField>, c: bool, f: WireField, tag: int)
    requires
        f.tag != tag,
    ensures
        repeated_of(opt_push(fs, c, f), tag) == repeated_of(fs, tag),
{
    reveal(opt_push);
    if c {
        assert(fs.push(f).drop_last() == fs);
    }
}

/// Appending the items of a repeated field: they follow what the field held,
/// other tags keep their last field, and every field stays writable with its
/// texts valid.
pub proof fn lemma_repeated_fields(base: Seq<WireField>, tag: int, items: Seq<Seq<u8>>, tags: Set<int>)
    ensures
        repeated_of(repeated_fields(base, tag, items), tag) == repeated_of(base, tag) + items,
        forall|t: int| t != tag ==> #[trigger] last_field(repeated_fields(base, tag, items), t) == last_field(base, t),
        (forall|i: int| 0 <= i < base.len() ==> writable(#[trigger] base[i])) && 0 <= tag < two64()
            && wire_kind(tag) == 2 && (forall|i: int| 0 <= i < items.len() ==> #[trigger] items[i].len() < two64())
            ==> forall|i: int| 0 <= i < repeated_fields(base, tag, items).len() ==> writable(
            #[trigger] repeated_fields(base, tag, items)[i],
        ),
        texts_valid(base, tags) && !tags.contains(tag) ==> texts_valid(repeated_fields(base, tag, items), tags),
    decreases items.len(),
{
    if items.len() == 0 {
        assert(repeated_of(base, tag) + items =~= repeated_of(base, tag));
    } else {
        let p = items.drop_last();
        lemma_repeated_fields(base, tag, p, tags);
        let prev = repeated_fields(base, tag, p);
        let f = bytes_field(tag, items.last());
        assert(prev.push(f).drop_last() == prev);
        assert(repeated_of(base, tag) + items =~= (repeated_of(base, tag) + p).push(items.last()));
        assert forall|t: int| t != tag implies #[trigger] last_field(repeated_fields(base, tag, items), t)
            == last_field(base, t) by {
            assert(repeated_fields(base, tag, items) == prev.push(f));
            assert(last_field(prev.push(f), t) == last_field(prev, t));
        }
        if (forall|i: int| 0 <= i < base.len() ==> writable(#[trigger] base[i])) && 0 <= tag < two64()
            && wire_kind(tag) == 2 && (forall|i: int| 0 <= i < items.len() ==> #[trigger] items[i].len() < two64()) {
            assert forall|i: int| 0 <= i < p.len() implies #[trigger] p[i].len() < two64() by {
                assert(p[i] == items[i]);
            }
            assert(items.last() == items[items.len() - 1]);
            assert forall|i: int| 0 <= i < prev.push(f).len() implies writable(#[trigger] prev.push(f)[i]) by {
                if i < prev.len() {
                    assert(prev.push(f)[i] == prev[i]);
                }
            }
        }
    }
}
} // verus!
