use vstd::prelude::*;
use vstd::bytes::{spec_u32_to_le_bytes, spec_u32_from_le_bytes, u32_to_le_bytes, u32_from_le_bytes};
use vstd::string::StrSliceExecFns;
use crate::color::Rgb;
use crate::db::{ThumbnailData, ThumbnailDb};
use crate::errors::MosaicError;

verus! {

/// The persisted shape of one record: what the byte stream stores.
pub ghost struct RecordView {
    pub path: Seq<char>,
    pub res: u32,
    pub colors: Seq<Rgb>,
}

/// The persisted shape of a record in memory.
pub open spec fn rec_view(t: ThumbnailData) -> RecordView {
    RecordView { path: t.path@, res: t.res, colors: t.colors@ }
}

/// The persisted shape of the whole database: its records in order.
pub open spec fn db_view(db: ThumbnailDb) -> Seq<RecordView> {
    db.thumbs@.map_values(|t: ThumbnailData| rec_view(t))
}

/// No two records of the sequence share an identity key.
pub open spec fn view_unique(rs: Seq<RecordView>) -> bool {
    forall|i: int, j: int|
        0 <= i < j < rs.len() ==> !(rs[j].path == rs[i].path && rs[j].res == rs[i].res)
}

/// The machine limits under which a database can be serialized: every
/// length must fit the 32-bit fields of the byte format.
pub open spec fn serializable(db: ThumbnailDb) -> bool {
    &&& db.thumbs@.len() <= u32::MAX
    &&& forall|i: int|
        0 <= i < db.thumbs@.len() ==> #[trigger] db.thumbs@[i].path@.len() <= u32::MAX
            && db.thumbs@[i].colors@.len() <= u32::MAX
}

/// Byte encoding of a path: each character's scalar value, little-endian.
pub open spec fn ser_chars(s: Seq<char>) -> Seq<u8>
    decreases s.len(),
{
    if s.len() == 0 {
        Seq::empty()
    } else {
        spec_u32_to_le_bytes(s.first() as u32) + ser_chars(s.drop_first())
    }
}

/// Byte encoding of the color samples: three bytes per sample.
pub open spec fn ser_colors(s: Seq<Rgb>) -> Seq<u8>
    decreases s.len(),
{
    if s.len() == 0 {
        Seq::empty()
    } else {
        seq![s.first().r, s.first().g, s.first().b] + ser_colors(s.drop_first())
    }
}

/// Byte encoding of one record: length-prefixed path, the resolution, and
/// the length-prefixed samples.
pub open spec fn ser_record(t: ThumbnailData) -> Seq<u8> {
    spec_u32_to_le_bytes(t.path@.len() as u32) + ser_chars(t.path@) + spec_u32_to_le_bytes(t.res)
        + spec_u32_to_le_bytes(t.colors@.len() as u32) + ser_colors(t.colors@)
}

/// Byte encoding of the records in insertion order.
pub open spec fn ser_records(ts: Seq<ThumbnailData>) -> Seq<u8>
    decreases ts.len(),
{
    if ts.len() == 0 {
        Seq::empty()
    } else {
        ser_record(ts.first()) + ser_records(ts.drop_first())
    }
}

/// Byte encoding of the whole database: record count, then the records.
pub open spec fn ser_db(db: ThumbnailDb) -> Seq<u8> {
    spec_u32_to_le_bytes(db.thumbs@.len() as u32) + ser_records(db.thumbs@)
}

/// Reads a little-endian 32-bit word off the front of the stream.
pub open spec fn parse_u32s(b: Seq<u8>) -> Option<(u32, Seq<u8>)> {
    if b.len() >= 4 {
        Some((spec_u32_from_le_bytes(b.take(4)), b.skip(4)))
    } else {
        None
    }
}

/// Reads `n` characters off the front of the stream; fails on a word that
/// is not a Unicode scalar value.
pub open spec fn parse_chars(b: Seq<u8>, n: int) -> Option<(Seq<char>, Seq<u8>)>
    decreases n,
{
    if n <= 0 {
        Some((Seq::empty(), b))
    } else {
        match parse_u32s(b) {
            None => None,
            Some((v, b1)) => if vstd::utf8::is_scalar(v) {
                match parse_chars(b1, n - 1) {
                    None => None,
                    Some((s, b2)) => Some((seq![v as char] + s, b2)),
                }
            } else {
                None
            },
        }
    }
}

/// Reads `n` color samples off the front of the stream.
pub open spec fn parse_colors(b: Seq<u8>, n: int) -> Option<(Seq<Rgb>, Seq<u8>)>
    decreases n,
{
    if n <= 0 {
        Some((Seq::empty(), b))
    } else if b.len() >= 3 {
        match parse_colors(b.skip(3), n - 1) {
            None => None,
            Some((s, b2)) => Some((seq![Rgb { r: b[0], g: b[1], b: b[2] }] + s, b2)),
        }
    } else {
        None
    }
}

/// Reads one record off the front of the stream.
pub open spec fn parse_record(b: Seq<u8>) -> Option<(RecordView, Seq<u8>)> {
    match parse_u32s(b) {
        None => None,
        Some((path_len, b1)) => match parse_chars(b1, path_len as int) {
            None => None,
            Some((path, b2)) => match parse_u32s(b2) {
                None => None,
                Some((res, b3)) => match parse_u32s(b3) {
                    None => None,
                    Some((color_len, b4)) => match parse_colors(b4, color_len as int) {
                        None => None,
                        Some((colors, b5)) => Some((RecordView { path, res, colors }, b5)),
                    },
                },
            },
        },
    }
}

/// Reads `n` records off the front of the stream.
pub open spec fn parse_records(b: Seq<u8>, n: int) -> Option<(Seq<RecordView>, Seq<u8>)>
    decreases n,
{
    if n <= 0 {
        Some((Seq::empty(), b))
    } else {
        match parse_record(b) {
            None => None,
            Some((t, b1)) => match parse_records(b1, n - 1) {
                None => None,
                Some((ts, b2)) => Some((seq![t] + ts, b2)),
            },
        }
    }
}

/// Reads a whole database image; fails on any malformed or trailing bytes.
pub open spec fn parse_db(b: Seq<u8>) -> Option<Seq<RecordView>> {
    match parse_u32s(b) {
        None => None,
        Some((n, b1)) => match parse_records(b1, n as int) {
            None => None,
            Some((rs, rest)) => if rest.len() == 0 {
                Some(rs)
            } else {
                None
            },
        },
    }
}

// --- serialization lemmas -------------------------------------------------

pub proof fn lemma_ser_chars_snoc(s: Seq<char>, c: char)
    ensures
        ser_chars(s.push(c)) == ser_chars(s) + spec_u32_to_le_bytes(c as u32),
    decreases s.len(),
{
    if s.len() == 0 {
        assert(s.push(c).drop_first() =~= Seq::<char>::empty());
        assert(s.push(c).first() == c);
        assert(ser_chars(Seq::<char>::empty()) == Seq::<u8>::empty());
        assert(ser_chars(s.push(c)) =~= ser_chars(s) + spec_u32_to_le_bytes(c as u32));
    } else {
        lemma_ser_chars_snoc(s.drop_first(), c);
        assert(s.push(c).drop_first() =~= s.drop_first().push(c));
        assert(s.push(c).first() == s.first());
        assert(ser_chars(s.push(c)) =~= ser_chars(s) + spec_u32_to_le_bytes(c as u32));
    }
}

pub proof fn lemma_ser_colors_snoc(s: Seq<Rgb>, c: Rgb)
    ensures
        ser_colors(s.push(c)) == ser_colors(s) + seq![c.r, c.g, c.b],
    decreases s.len(),
{
    if s.len() == 0 {
        assert(s.push(c).drop_first() =~= Seq::<Rgb>::empty());
        assert(s.push(c).first() == c);
        assert(ser_colors(Seq::<Rgb>::empty()) == Seq::<u8>::empty());
        assert(ser_colors(s.push(c)) =~= ser_colors(s) + seq![c.r, c.g, c.b]);
    } else {
        lemma_ser_colors_snoc(s.drop_first(), c);
        assert(s.push(c).drop_first() =~= s.drop_first().push(c));
        assert(s.push(c).first() == s.first());
        assert(ser_colors(s.push(c)) =~= ser_colors(s) + seq![c.r, c.g, c.b]);
    }
}

pub proof fn lemma_ser_records_snoc(ts: Seq<ThumbnailData>, t: ThumbnailData)
    ensures
        ser_records(ts.push(t)) == ser_records(ts) + ser_record(t),
    decreases ts.len(),
{
    if ts.len() == 0 {
        assert(ts.push(t).drop_first() =~= Seq::<ThumbnailData>::empty());
        assert(ts.push(t).first() == t);
        assert(ser_records(Seq::<ThumbnailData>::empty()) == Seq::<u8>::empty());
        assert(ser_records(ts.push(t)) =~= ser_records(ts) + ser_record(t));
    } else {
        lemma_ser_records_snoc(ts.drop_first(), t);
        assert(ts.push(t).drop_first() =~= ts.drop_first().push(t));
        assert(ts.push(t).first() == ts.first());
        assert(ser_records(ts.push(t)) =~= ser_records(ts) + ser_record(t));
    }
}

// --- parse-of-serialization lemmas ----------------------------------------

pub proof fn lemma_parse_u32_of_ser(v: u32, rest: Seq<u8>)
    ensures
        parse_u32s(spec_u32_to_le_bytes(v) + rest) == Some((v, rest)),
{
    vstd::bytes::lemma_auto_spec_u32_to_from_le_bytes();
    let b = spec_u32_to_le_bytes(v) + rest;
    assert(b.take(4) =~= spec_u32_to_le_bytes(v));
    assert(b.skip(4) =~= rest);
}

pub proof fn lemma_parse_chars_of_ser(s: Seq<char>, rest: Seq<u8>)
    ensures
        parse_chars(ser_chars(s) + rest, s.len() as int) == Some((s, rest)),
    decreases s.len(),
{
    if s.len() == 0 {
        assert(ser_chars(s) + rest =~= rest);
    } else {
        let c = s.first();
        let tail = s.drop_first();
        lemma_parse_chars_of_ser(tail, rest);
        assert(ser_chars(s) + rest =~= spec_u32_to_le_bytes(c as u32) + (ser_chars(tail) + rest));
        lemma_parse_u32_of_ser(c as u32, ser_chars(tail) + rest);
        vstd::utf8::char_is_scalar(c);
        vstd::utf8::char_u32_cast(c, c as u32);
        assert(seq![c] + tail =~= s);
    }
}

pub proof fn lemma_parse_colors_of_ser(s: Seq<Rgb>, rest: Seq<u8>)
    ensures
        parse_colors(ser_colors(s) + rest, s.len() as int) == Some((s, rest)),
    decreases s.len(),
{
    if s.len() == 0 {
        assert(ser_colors(s) + rest =~= rest);
    } else {
        let c = s.first();
        let tail = s.drop_first();
        lemma_parse_colors_of_ser(tail, rest);
        let b = ser_colors(s) + rest;
        assert(b =~= seq![c.r, c.g, c.b] + (ser_colors(tail) + rest));
        assert(b.skip(3) =~= ser_colors(tail) + rest);
        assert(b[0] == c.r && b[1] == c.g && b[2] == c.b);
        assert(seq![Rgb { r: c.r, g: c.g, b: c.b }] + tail =~= s);
    }
}

pub proof fn lemma_parse_record_of_ser(t: ThumbnailData, rest: Seq<u8>)
    requires
        t.path@.len() <= u32::MAX,
        t.colors@.len() <= u32::MAX,
    ensures
        parse_record(ser_record(t) + rest) == Some((rec_view(t), rest)),
{
    let path_len_b = spec_u32_to_le_bytes(t.path@.len() as u32);
    let chars_b = ser_chars(t.path@);
    let res_b = spec_u32_to_le_bytes(t.res);
    let color_len_b = spec_u32_to_le_bytes(t.colors@.len() as u32);
    let colors_b = ser_colors(t.colors@);
    let b = ser_record(t) + rest;
    assert(b =~= path_len_b + (chars_b + (res_b + (color_len_b + (colors_b + rest)))));
    lemma_parse_u32_of_ser(t.path@.len() as u32, chars_b + (res_b + (color_len_b + (colors_b
        + rest))));
    lemma_parse_chars_of_ser(t.path@, res_b + (color_len_b + (colors_b + rest)));
    assert(chars_b + (res_b + (color_len_b + (colors_b + rest))) =~= ser_chars(t.path@) + (res_b + (
    color_len_b + (colors_b + rest))));
    lemma_parse_u32_of_ser(t.res, color_len_b + (colors_b + rest));
    lemma_parse_u32_of_ser(t.colors@.len() as u32, colors_b + rest);
    lemma_parse_colors_of_ser(t.colors@, rest);
}

pub proof fn lemma_parse_records_of_ser(ts: Seq<ThumbnailData>, rest: Seq<u8>)
    requires
        forall|i: int|
            0 <= i < ts.len() ==> #[trigger] ts[i].path@.len() <= u32::MAX
                && ts[i].colors@.len() <= u32::MAX,
    ensures
        parse_records(ser_records(ts) + rest, ts.len() as int) == Some((
            ts.map_values(|t: ThumbnailData| rec_view(t)),
            rest,
        )),
    decreases ts.len(),
{
    if ts.len() == 0 {
        assert(ser_records(ts) + rest =~= rest);
        assert(ts.map_values(|t: ThumbnailData| rec_view(t)) =~= Seq::<RecordView>::empty());
    } else {
        let t = ts.first();
        let tail = ts.drop_first();
        assert(forall|i: int|
            0 <= i < tail.len() ==> #[trigger] tail[i].path@.len() <= u32::MAX
                && tail[i].colors@.len() <= u32::MAX);
        lemma_parse_records_of_ser(tail, rest);
        assert(ser_records(ts) + rest =~= ser_record(t) + (ser_records(tail) + rest));
        lemma_parse_record_of_ser(t, ser_records(tail) + rest);
        assert(seq![rec_view(t)] + tail.map_values(|x: ThumbnailData| rec_view(x)) =~= ts.map_values(
            |x: ThumbnailData| rec_view(x),
        ));
    }
}

/// Round trip: deserializing a serialized database yields the same records
/// in the same order.
pub proof fn lemma_round_trip(db: ThumbnailDb)
    requires
        serializable(db),
    ensures
        parse_db(ser_db(db)) == Some(db_view(db)),
{
    let count = db.thumbs@.len() as u32;
    assert(ser_db(db) =~= spec_u32_to_le_bytes(count) + (ser_records(db.thumbs@)
        + Seq::<u8>::empty()));
    lemma_parse_u32_of_ser(count, ser_records(db.thumbs@) + Seq::<u8>::empty());
    lemma_parse_records_of_ser(db.thumbs@, Seq::<u8>::empty());
}

// --- executable serialization ----------------------------------------------

/// Appends a little-endian 32-bit word.
fn push_u32(out: &mut Vec<u8>, v: u32)
    ensures
        final(out)@ == old(out)@ + spec_u32_to_le_bytes(v),
{
    let bs = u32_to_le_bytes(v);
    out.push(bs[0]);
    out.push(bs[1]);
    out.push(bs[2]);
    out.push(bs[3]);
    proof {
        assert(out@ =~= old(out)@ + spec_u32_to_le_bytes(v));
    }
}

/// Appends one record's byte encoding.
fn serialize_record(out: &mut Vec<u8>, t: &ThumbnailData)
    requires
        t.path@.len() <= u32::MAX,
        t.colors@.len() <= u32::MAX,
    ensures
        final(out)@ == old(out)@ + ser_record(*t),
{
    let path_len: usize = t.path.as_str().unicode_len();
    push_u32(out, path_len as u32);
    let mut i: usize = 0;
    while i < path_len
        invariant
            i <= path_len,
            path_len == t.path@.len(),
            out@ == old(out)@ + spec_u32_to_le_bytes(path_len as u32) + ser_chars(
                t.path@.take(i as int),
            ),
        decreases path_len - i,
    {
        let c = t.path.as_str().get_char(i);
        push_u32(out, c as u32);
        proof {
            lemma_ser_chars_snoc(t.path@.take(i as int), c);
            assert(t.path@.take(i as int).push(c) =~= t.path@.take(i + 1));
        }
        i = i + 1;
    }
    proof {
        assert(t.path@.take(path_len as int) =~= t.path@);
    }
    push_u32(out, t.res);
    let color_len: usize = t.colors.len();
    push_u32(out, color_len as u32);
    let ghost base = out@;
    let mut j: usize = 0;
    while j < color_len
        invariant
            j <= color_len,
            color_len == t.colors@.len(),
            out@ == base + ser_colors(t.colors@.take(j as int)),
        decreases color_len - j,
    {
        let c = t.colors[j];
        out.push(c.r);
        out.push(c.g);
        out.push(c.b);
        proof {
            lemma_ser_colors_snoc(t.colors@.take(j as int), c);
            assert(t.colors@.take(j as int).push(c) =~= t.colors@.take(j + 1));
            assert(out@ =~= base + ser_colors(t.colors@.take(j + 1)));
        }
        j = j + 1;
    }
    proof {
        assert(t.colors@.take(color_len as int) =~= t.colors@);
        assert(out@ =~= old(out)@ + ser_record(*t));
    }
}

/// Serializes the full record set in insertion order.
pub fn serialize_db(db: &ThumbnailDb) -> (r: Vec<u8>)
    requires
        serializable(*db),
    ensures
        r@ == ser_db(*db),
{
    let mut out: Vec<u8> = Vec::new();
    let count: usize = db.thumbs.len();
    push_u32(&mut out, count as u32);
    let mut i: usize = 0;
    while i < count
        invariant
            i <= count,
            count == db.thumbs@.len(),
            serializable(*db),
            out@ == spec_u32_to_le_bytes(count as u32) + ser_records(db.thumbs@.take(i as int)),
        decreases count - i,
    {
        let t = &db.thumbs[i];
        serialize_record(&mut out, t);
        proof {
            lemma_ser_records_snoc(db.thumbs@.take(i as int), db.thumbs@[i as int]);
            assert(db.thumbs@.take(i as int).push(db.thumbs@[i as int]) =~= db.thumbs@.take(i + 1));
            assert(out@ =~= spec_u32_to_le_bytes(count as u32) + ser_records(
                db.thumbs@.take(i + 1),
            ));
        }
        i = i + 1;
    }
    proof {
        assert(db.thumbs@.take(count as int) =~= db.thumbs@);
        assert(out@ =~= ser_db(*db));
    }
    out
}


// --- executable deserialization ---------------------------------------------

/// `None` exactly when `r` is; otherwise the same outcome with `pre`
/// prepended to the parsed items.
pub open spec fn prepend<T>(pre: Seq<T>, r: Option<(Seq<T>, Seq<u8>)>) -> Option<(Seq<T>, Seq<u8>)> {
    match r {
        None => None,
        Some((s, rest)) => Some((pre + s, rest)),
    }
}

/// Relies on char::from_u32: `Some` exactly on Unicode scalar values,
/// returning the character with that scalar value.
#[verifier::external_body]
fn char_from_u32(v: u32) -> (r: Option<char>)
    ensures
        r == (if vstd::utf8::is_scalar(v) {
            Some(v as char)
        } else {
            None::<char>
        }),
{
    char::from_u32(v)
}

/// Relies on String::push: appends one character to the end.
#[verifier::external_body]
fn push_char(s: &mut String, c: char)
    ensures
        final(s)@ == old(s)@.push(c),
{
    s.push(c);
}

/// Reads a little-endian 32-bit word at `pos`.
fn read_u32(bytes: &Vec<u8>, pos: usize) -> (r: Option<(u32, usize)>)
    requires
        pos <= bytes@.len(),
    ensures
        r matches Some(vp) ==> vp.1 == pos + 4 && vp.1 <= bytes@.len() && parse_u32s(
            bytes@.skip(pos as int),
        ) == Some((vp.0, bytes@.skip(vp.1 as int))),
        r is None ==> parse_u32s(bytes@.skip(pos as int)) is None,
{
    let n = bytes.len();
    if n - pos < 4 {
        return None;
    }
    let sl = vstd::slice::slice_subrange(bytes.as_slice(), pos, pos + 4);
    let v = u32_from_le_bytes(sl);
    proof {
        assert(bytes@.skip(pos as int).take(4) =~= bytes@.subrange(pos as int, pos as int + 4));
        assert(bytes@.skip(pos as int).skip(4) =~= bytes@.skip(pos as int + 4));
    }
    Some((v, pos + 4))
}

/// Reads `n` characters at `pos`.
fn read_chars(bytes: &Vec<u8>, pos: usize, n: u32) -> (r: Option<(String, usize)>)
    requires
        pos <= bytes@.len(),
    ensures
        r matches Some(sp) ==> pos <= sp.1 <= bytes@.len() && parse_chars(
            bytes@.skip(pos as int),
            n as int,
        ) == Some((sp.0@, bytes@.skip(sp.1 as int))),
        r is None ==> parse_chars(bytes@.skip(pos as int), n as int) is None,
{
    let mut s = String::new();
    let mut cur: usize = pos;
    let mut k: u32 = 0;
    while k < n
        invariant
            pos <= cur <= bytes@.len(),
            k <= n,
            prepend(s@, parse_chars(bytes@.skip(cur as int), n - k)) == parse_chars(
                bytes@.skip(pos as int),
                n as int,
            ),
        decreases n - k,
    {
        match read_u32(bytes, cur) {
            None => {
                return None;
            },
            Some((v, p2)) => {
                match char_from_u32(v) {
                    None => {
                        return None;
                    },
                    Some(c) => {
                        proof {
                            let m = n - k;
                            let inner = parse_chars(bytes@.skip(p2 as int), m - 1);
                            match inner {
                                Some((s2, b2)) => {
                                    assert(parse_chars(bytes@.skip(cur as int), m) == Some((
                                        seq![c] + s2,
                                        b2,
                                    )));
                                    assert(s@ + (seq![c] + s2) =~= s@.push(c) + s2);
                                },
                                None => {},
                            }
                        }
                        push_char(&mut s, c);
                        cur = p2;
                        k = k + 1;
                    },
                }
            },
        }
    }
    proof {
        assert(s@ + Seq::<char>::empty() =~= s@);
    }
    Some((s, cur))
}

/// Reads `n` color samples at `pos`.
fn read_colors(bytes: &Vec<u8>, pos: usize, n: u32) -> (r: Option<(Vec<Rgb>, usize)>)
    requires
        pos <= bytes@.len(),
    ensures
        r matches Some(cp) ==> pos <= cp.1 <= bytes@.len() && parse_colors(
            bytes@.skip(pos as int),
            n as int,
        ) == Some((cp.0@, bytes@.skip(cp.1 as int))),
        r is None ==> parse_colors(bytes@.skip(pos as int), n as int) is None,
{
    let len = bytes.len();
    let mut colors: Vec<Rgb> = Vec::new();
    let mut cur: usize = pos;
    let mut k: u32 = 0;
    while k < n
        invariant
            pos <= cur <= bytes@.len(),
            len == bytes@.len(),
            k <= n,
            prepend(colors@, parse_colors(bytes@.skip(cur as int), n - k)) == parse_colors(
                bytes@.skip(pos as int),
                n as int,
            ),
        decreases n - k,
    {
        if len - cur < 3 {
            return None;
        }
        let px = Rgb { r: bytes[cur], g: bytes[cur + 1], b: bytes[cur + 2] };
        proof {
            let m = n - k;
            let b = bytes@.skip(cur as int);
            assert(b[0] == bytes@[cur as int] && b[1] == bytes@[cur as int + 1] && b[2] == bytes@[
                cur as int + 2
            ]);
            assert(b.skip(3) =~= bytes@.skip(cur as int + 3));
            let inner = parse_colors(bytes@.skip(cur as int + 3), m - 1);
            match inner {
                Some((s2, b2)) => {
                    assert(parse_colors(b, m) == Some((seq![px] + s2, b2)));
                    assert(colors@ + (seq![px] + s2) =~= colors@.push(px) + s2);
                },
                None => {},
            }
        }
        colors.push(px);
        cur = cur + 3;
        k = k + 1;
    }
    proof {
        assert(colors@ + Seq::<Rgb>::empty() =~= colors@);
    }
    Some((colors, cur))
}

/// Reads one record at `pos`.
fn read_record(bytes: &Vec<u8>, pos: usize) -> (r: Option<(ThumbnailData, usize)>)
    requires
        pos <= bytes@.len(),
    ensures
        r matches Some(tp) ==> pos <= tp.1 <= bytes@.len() && parse_record(
            bytes@.skip(pos as int),
        ) == Some((rec_view(tp.0), bytes@.skip(tp.1 as int))),
        r is None ==> parse_record(bytes@.skip(pos as int)) is None,
{
    let (path_len, p1) = match read_u32(bytes, pos) {
        None => {
            return None;
        },
        Some(x) => x,
    };
    let (path, p2) = match read_chars(bytes, p1, path_len) {
        None => {
            return None;
        },
        Some(x) => x,
    };
    let (res, p3) = match read_u32(bytes, p2) {
        None => {
            return None;
        },
        Some(x) => x,
    };
    let (color_len, p4) = match read_u32(bytes, p3) {
        None => {
            return None;
        },
        Some(x) => x,
    };
    let (colors, p5) = match read_colors(bytes, p4, color_len) {
        None => {
            return None;
        },
        Some(x) => x,
    };
    Some((ThumbnailData { path, res, colors }, p5))
}

/// Whether the database invariant holds: no two records share a key.
fn check_unique(db: &ThumbnailDb) -> (r: bool)
    ensures
        r == db.wf(),
{
    let n = db.thumbs.len();
    let mut j: usize = 1;
    while j < n
        invariant
            n == db.thumbs@.len(),
            1 <= j,
            forall|a: int, b: int|
                0 <= a < b < j && b < n ==> !db.thumbs@[b].key_matches(
                    db.thumbs@[a].path@,
                    db.thumbs@[a].res,
                ),
        decreases n - j,
    {
        let t = &db.thumbs[j];
        let mut i: usize = 0;
        while i < j
            invariant
                n == db.thumbs@.len(),
                i <= j < n,
                t == db.thumbs@[j as int],
                forall|a: int|
                    0 <= a < i ==> !db.thumbs@[j as int].key_matches(
                        db.thumbs@[a].path@,
                        db.thumbs@[a].res,
                    ),
            decreases j - i,
        {
            let u = &db.thumbs[i];
            if t.res == u.res && t.path == u.path {
                assert(db.thumbs@[j as int].key_matches(
                    db.thumbs@[i as int].path@,
                    db.thumbs@[i as int].res,
                ));
                return false;
            }
            i = i + 1;
        }
        j = j + 1;
    }
    true
}

proof fn lemma_wf_view(db: ThumbnailDb)
    ensures
        db.wf() <==> view_unique(db_view(db)),
{
    assert(forall|i: int|
        0 <= i < db.thumbs@.len() ==> #[trigger] db_view(db)[i] == rec_view(db.thumbs@[i]));
    if db.wf() {
        assert forall|i: int, j: int|
            0 <= i < j < db_view(db).len() implies !(db_view(db)[j].path == db_view(db)[i].path
            && db_view(db)[j].res == db_view(db)[i].res) by {
            assert(!db.thumbs@[j].key_matches(db.thumbs@[i].path@, db.thumbs@[i].res));
        }
    }
    if view_unique(db_view(db)) {
        assert forall|i: int, j: int|
            0 <= i < j < db.thumbs@.len() implies !db.thumbs@[j].key_matches(
            db.thumbs@[i].path@,
            db.thumbs@[i].res,
        ) by {
            assert(!(db_view(db)[j].path == db_view(db)[i].path && db_view(db)[j].res == db_view(
                db,
            )[i].res));
        }
    }
}

/// Deserializes a persisted record set. Fails with `CorruptCache` exactly
/// when the bytes are not a well-formed database image: malformed or
/// trailing bytes, or two records sharing an identity key.
pub fn deserialize_db(bytes: &Vec<u8>) -> (r: Result<ThumbnailDb, MosaicError>)
    ensures
        r is Ok <==> (parse_db(bytes@) matches Some(rs) && view_unique(rs)),
        r matches Ok(db) ==> parse_db(bytes@) == Some(db_view(db)) && db.wf(),
        r matches Err(e) ==> e == MosaicError::CorruptCache,
{
    proof {
        assert(bytes@.skip(0) =~= bytes@);
    }
    let (count, p1) = match read_u32(bytes, 0) {
        None => {
            return Err(MosaicError::CorruptCache);
        },
        Some(x) => x,
    };
    let mut thumbs: Vec<ThumbnailData> = Vec::new();
    let mut cur: usize = p1;
    let mut k: u32 = 0;
    while k < count
        invariant
            p1 <= cur <= bytes@.len(),
            k <= count,
            parse_u32s(bytes@) == Some((count, bytes@.skip(p1 as int))),
            prepend(
                thumbs@.map_values(|t: ThumbnailData| rec_view(t)),
                parse_records(bytes@.skip(cur as int), count - k),
            ) == parse_records(bytes@.skip(p1 as int), count as int),
        decreases count - k,
    {
        match read_record(bytes, cur) {
            None => {
                return Err(MosaicError::CorruptCache);
            },
            Some((t, p2)) => {
                proof {
                    let m = count - k;
                    let inner = parse_records(bytes@.skip(p2 as int), m - 1);
                    let pre = thumbs@.map_values(|x: ThumbnailData| rec_view(x));
                    match inner {
                        Some((s2, b2)) => {
                            assert(parse_records(bytes@.skip(cur as int), m) == Some((
                                seq![rec_view(t)] + s2,
                                b2,
                            )));
                            assert(pre + (seq![rec_view(t)] + s2) =~= pre.push(rec_view(t)) + s2);
                        },
                        None => {},
                    }
                    assert(thumbs@.push(t).map_values(|x: ThumbnailData| rec_view(x)) =~= pre.push(
                        rec_view(t),
                    ));
                }
                thumbs.push(t);
                cur = p2;
                k = k + 1;
            },
        }
    }
    proof {
        let pre = thumbs@.map_values(|x: ThumbnailData| rec_view(x));
        assert(pre + Seq::<RecordView>::empty() =~= pre);
    }
    if cur != bytes.len() {
        proof {
            assert(bytes@.skip(cur as int).len() > 0);
        }
        return Err(MosaicError::CorruptCache);
    }
    proof {
        assert(bytes@.skip(cur as int).len() == 0);
    }
    let db = ThumbnailDb { thumbs };
    proof {
        lemma_wf_view(db);
    }
    if !check_unique(&db) {
        return Err(MosaicError::CorruptCache);
    }
    Ok(db)
}

} // verus!
