//! Binary field codec.
//!
//! Every record is stored as the encoding of its field list.  A field is a
//! tagged value: one tag byte followed by a fixed payload shape per tag.
//! The encoding is self-describing and injective on bounded field lists, so
//! decoding is a partial inverse of encoding.

use vstd::prelude::*;
use vstd::bytes::*;
use vstd::slice::*;

verus! {

/// The mathematical value of one encoded field.
pub enum FieldV {
    U64(u64),
    B(bool),
    S(Seq<char>),
    OptS(Option<Seq<char>>),
    SList(Seq<Seq<char>>),
    OptSList(Option<Seq<Seq<char>>>),
    OptU64List(Option<Seq<u64>>),
    BytesList(Seq<Seq<u8>>),
}

pub const TAG_U64: u8 = 1;
pub const TAG_B: u8 = 2;
pub const TAG_S: u8 = 3;
pub const TAG_OPT_S: u8 = 4;
pub const TAG_S_LIST: u8 = 5;
pub const TAG_OPT_S_LIST: u8 = 6;
pub const TAG_OPT_U64_LIST: u8 = 7;
pub const TAG_BYTES_LIST: u8 = 8;

/// One more than the largest value a `u64` length prefix can carry.
pub open spec fn len_limit() -> nat {
    0x1_0000_0000_0000_0000
}

pub open spec fn spec_enc_u64(v: u64) -> Seq<u8> {
    spec_u64_to_le_bytes(v)
}

pub open spec fn spec_enc_str(s: Seq<char>) -> Seq<u8> {
    spec_enc_u64(vstd::utf8::encode_utf8(s).len() as u64) + vstd::utf8::encode_utf8(s)
}

pub open spec fn str_bounded(s: Seq<char>) -> bool {
    vstd::utf8::encode_utf8(s).len() < len_limit()
}

pub open spec fn spec_enc_str_list(l: Seq<Seq<char>>) -> Seq<u8>
    decreases l.len(),
{
    if l.len() == 0 {
        Seq::empty()
    } else {
        spec_enc_str(l[0]) + spec_enc_str_list(l.drop_first())
    }
}

pub open spec fn str_list_bounded(l: Seq<Seq<char>>) -> bool {
    l.len() < len_limit() && forall|k: int| 0 <= k < l.len() ==> str_bounded(#[trigger] l[k])
}

pub open spec fn spec_enc_u64_list(l: Seq<u64>) -> Seq<u8>
    decreases l.len(),
{
    if l.len() == 0 {
        Seq::empty()
    } else {
        spec_enc_u64(l[0]) + spec_enc_u64_list(l.drop_first())
    }
}

pub open spec fn spec_enc_bytes_list(l: Seq<Seq<u8>>) -> Seq<u8>
    decreases l.len(),
{
    if l.len() == 0 {
        Seq::empty()
    } else {
        spec_enc_u64(l[0].len() as u64) + l[0] + spec_enc_bytes_list(l.drop_first())
    }
}

pub open spec fn bytes_list_bounded(l: Seq<Seq<u8>>) -> bool {
    l.len() < len_limit() && forall|k: int| 0 <= k < l.len() ==> (#[trigger] l[k]).len() < len_limit()
}

/// The payload bytes of one field, without its tag byte.
pub open spec fn spec_enc_payload(f: FieldV) -> Seq<u8> {
    match f {
        FieldV::U64(v) => spec_enc_u64(v),
        FieldV::B(x) => seq![if x { 1u8 } else { 0u8 }],
        FieldV::S(s) => spec_enc_str(s),
        FieldV::OptS(o) => match o {
            Option::None => seq![0u8],
            Option::Some(s) => seq![1u8] + spec_enc_str(s),
        },
        FieldV::SList(l) => spec_enc_u64(l.len() as u64) + spec_enc_str_list(l),
        FieldV::OptSList(o) => match o {
            Option::None => seq![0u8],
            Option::Some(l) => seq![1u8] + spec_enc_u64(l.len() as u64) + spec_enc_str_list(l),
        },
        FieldV::OptU64List(o) => match o {
            Option::None => seq![0u8],
            Option::Some(l) => seq![1u8] + spec_enc_u64(l.len() as u64) + spec_enc_u64_list(l),
        },
        FieldV::BytesList(l) => spec_enc_u64(l.len() as u64) + spec_enc_bytes_list(l),
    }
}

pub open spec fn field_tag(f: FieldV) -> u8 {
    match f {
        FieldV::U64(_) => TAG_U64,
        FieldV::B(_) => TAG_B,
        FieldV::S(_) => TAG_S,
        FieldV::OptS(_) => TAG_OPT_S,
        FieldV::SList(_) => TAG_S_LIST,
        FieldV::OptSList(_) => TAG_OPT_S_LIST,
        FieldV::OptU64List(_) => TAG_OPT_U64_LIST,
        FieldV::BytesList(_) => TAG_BYTES_LIST,
    }
}

/// A field whose length prefixes all fit in their `u64` slots.
pub open spec fn field_bounded(f: FieldV) -> bool {
    match f {
        FieldV::U64(_) => true,
        FieldV::B(_) => true,
        FieldV::S(s) => str_bounded(s),
        FieldV::OptS(o) => match o {
            Option::None => true,
            Option::Some(s) => str_bounded(s),
        },
        FieldV::SList(l) => str_list_bounded(l),
        FieldV::OptSList(o) => match o {
            Option::None => true,
            Option::Some(l) => str_list_bounded(l),
        },
        FieldV::OptU64List(o) => match o {
            Option::None => true,
            Option::Some(l) => l.len() < len_limit(),
        },
        FieldV::BytesList(l) => bytes_list_bounded(l),
    }
}

/// The encoding of one field: its tag byte, then its payload.
pub open spec fn spec_enc_field(f: FieldV) -> Seq<u8> {
    seq![field_tag(f)] + spec_enc_payload(f)
}

/// The encoding of a field list: the fields one after the other.
pub open spec fn spec_enc_fields(fs: Seq<FieldV>) -> Seq<u8>
    decreases fs.len(),
{
    if fs.len() == 0 {
        Seq::empty()
    } else {
        spec_enc_field(fs[0]) + spec_enc_fields(fs.drop_first())
    }
}

pub open spec fn fields_bounded(fs: Seq<FieldV>) -> bool {
    forall|k: int| 0 <= k < fs.len() ==> field_bounded(#[trigger] fs[k])
}

/// The executable value of one field, paired with [`FieldV`] by [`Field::v`].
pub enum Field {
    U64(u64),
    B(bool),
    S(String),
    OptS(Option<String>),
    SList(Vec<String>),
    OptSList(Option<Vec<String>>),
    OptU64List(Option<Vec<u64>>),
    BytesList(Vec<Vec<u8>>),
}

impl Field {
    /// The mathematical value this executable field stands for.
    pub open spec fn v(self) -> FieldV {
        match self {
            Field::U64(v) => FieldV::U64(v),
            Field::B(x) => FieldV::B(x),
            Field::S(s) => FieldV::S(s@),
            Field::OptS(o) => FieldV::OptS(o.deep_view()),
            Field::SList(l) => FieldV::SList(l.deep_view()),
            Field::OptSList(o) => FieldV::OptSList(o.deep_view()),
            Field::OptU64List(o) => FieldV::OptU64List(o.deep_view()),
            Field::BytesList(l) => FieldV::BytesList(l.deep_view()),
        }
    }
}

pub open spec fn views_of(fs: Seq<Field>) -> Seq<FieldV> {
    fs.map_values(|f: Field| f.v())
}

// ---------------------------------------------------------------------------
// Executable encoders.
// ---------------------------------------------------------------------------

pub fn enc_u64(out: &mut Vec<u8>, v: u64)
    ensures
        final(out)@ == old(out)@ + spec_enc_u64(v),
{
    let mut bs = u64_to_le_bytes(v);
    out.append(&mut bs);
}

pub fn enc_str(out: &mut Vec<u8>, s: &str)
    ensures
        final(out)@ == old(out)@ + spec_enc_str(s@),
        str_bounded(s@),
{
    let mut bs = vstd::string::StrSliceExecFns::as_bytes_vec(s);
    let n: u64 = bs.len() as u64;
    enc_u64(out, n);
    out.append(&mut bs);
}

fn enc_str_list(out: &mut Vec<u8>, l: &Vec<String>)
    ensures
        final(out)@ == old(out)@ + spec_enc_u64(l@.len() as u64) + spec_enc_str_list(l.deep_view()),
        str_list_bounded(l.deep_view()),
{
    enc_u64(out, l.len() as u64);
    let ghost base = out@;
    let mut k: usize = 0;
    while k < l.len()
        invariant
            k <= l@.len(),
            l.deep_view().len() == l@.len(),
            out@ == base + spec_enc_str_list(l.deep_view().take(k as int)),
            forall|m: int| 0 <= m < k ==> str_bounded(#[trigger] l.deep_view()[m]),
        decreases l@.len() - k,
    {
        enc_str(out, l[k].as_str());
        proof {
            assert(l.deep_view()[k as int] == l@[k as int]@);
            lemma_enc_str_list_push(l.deep_view().take(k as int), l.deep_view()[k as int]);
            assert(l.deep_view().take(k as int).push(l.deep_view()[k as int])
                =~= l.deep_view().take(k + 1 as int));
        }
        k = k + 1;
    }
    proof {
        assert(l.deep_view().take(l@.len() as int) =~= l.deep_view());
    }
}

fn enc_u64_list(out: &mut Vec<u8>, l: &Vec<u64>)
    ensures
        final(out)@ == old(out)@ + spec_enc_u64(l@.len() as u64) + spec_enc_u64_list(l.deep_view()),
        l.deep_view().len() < len_limit(),
{
    proof {
        assert(l.deep_view() =~= l@);
    }
    enc_u64(out, l.len() as u64);
    let ghost base = out@;
    let mut k: usize = 0;
    while k < l.len()
        invariant
            k <= l@.len(),
            out@ == base + spec_enc_u64_list(l@.take(k as int)),
        decreases l@.len() - k,
    {
        enc_u64(out, l[k]);
        proof {
            lemma_enc_u64_list_push(l@.take(k as int), l@[k as int]);
            assert(l@.take(k as int).push(l@[k as int]) =~= l@.take(k + 1 as int));
        }
        k = k + 1;
    }
    proof {
        assert(l@.take(l@.len() as int) =~= l@);
    }
}

fn enc_bytes_list(out: &mut Vec<u8>, l: &Vec<Vec<u8>>)
    ensures
        final(out)@ == old(out)@ + spec_enc_u64(l@.len() as u64) + spec_enc_bytes_list(l.deep_view()),
        bytes_list_bounded(l.deep_view()),
{
    enc_u64(out, l.len() as u64);
    let ghost base = out@;
    let mut k: usize = 0;
    while k < l.len()
        invariant
            k <= l@.len(),
            l.deep_view().len() == l@.len(),
            out@ == base + spec_enc_bytes_list(l.deep_view().take(k as int)),
            forall|m: int| 0 <= m < k ==> (#[trigger] l.deep_view()[m]).len() < len_limit(),
        decreases l@.len() - k,
    {
        let item = &l[k];
        enc_u64(out, item.len() as u64);
        let mut copy = vstd::slice::slice_to_vec(item.as_slice());
        out.append(&mut copy);
        proof {
            assert(l.deep_view()[k as int] == l@[k as int]@);
            lemma_enc_bytes_list_push(l.deep_view().take(k as int), l.deep_view()[k as int]);
            assert(l.deep_view().take(k as int).push(l.deep_view()[k as int])
                =~= l.deep_view().take(k + 1 as int));
        }
        k = k + 1;
    }
    proof {
        assert(l.deep_view().take(l@.len() as int) =~= l.deep_view());
    }
}

/// Appends the encoding of one field: its tag byte, then its payload.
pub fn enc_field(out: &mut Vec<u8>, f: &Field)
    ensures
        final(out)@ == old(out)@ + spec_enc_field(f.v()),
        field_bounded(f.v()),
{
    match f {
        Field::U64(v) => {
            out.push(TAG_U64);
            enc_u64(out, *v);
        },
        Field::B(x) => {
            out.push(TAG_B);
            out.push(if *x { 1u8 } else { 0u8 });
            proof {
                assert(spec_enc_payload(f.v()) =~= seq![if *x { 1u8 } else { 0u8 }]);
            }
        },
        Field::S(s) => {
            out.push(TAG_S);
            enc_str(out, s.as_str());
        },
        Field::OptS(o) => {
            out.push(TAG_OPT_S);
            match o {
                Option::None => {
                    out.push(0u8);
                },
                Option::Some(s) => {
                    out.push(1u8);
                    enc_str(out, s.as_str());
                },
            }
        },
        Field::SList(l) => {
            out.push(TAG_S_LIST);
            enc_str_list(out, l);
        },
        Field::OptSList(o) => {
            out.push(TAG_OPT_S_LIST);
            match o {
                Option::None => {
                    out.push(0u8);
                },
                Option::Some(l) => {
                    out.push(1u8);
                    enc_str_list(out, l);
                },
            }
        },
        Field::OptU64List(o) => {
            out.push(TAG_OPT_U64_LIST);
            match o {
                Option::None => {
                    out.push(0u8);
                },
                Option::Some(l) => {
                    out.push(1u8);
                    enc_u64_list(out, l);
                },
            }
        },
        Field::BytesList(l) => {
            out.push(TAG_BYTES_LIST);
            enc_bytes_list(out, l);
        },
    }
    proof {
        assert(out@ =~= old(out)@ + spec_enc_field(f.v()));
    }
}

/// Encodes a whole field list.
pub fn enc_fields(fs: &Vec<Field>) -> (r: Vec<u8>)
    ensures
        r@ == spec_enc_fields(views_of(fs@)),
        fields_bounded(views_of(fs@)),
{
    let mut out: Vec<u8> = Vec::new();
    let mut k: usize = 0;
    while k < fs.len()
        invariant
            k <= fs@.len(),
            views_of(fs@).len() == fs@.len(),
            out@ == spec_enc_fields(views_of(fs@).take(k as int)),
            forall|m: int| 0 <= m < k ==> field_bounded(#[trigger] views_of(fs@)[m]),
        decreases fs@.len() - k,
    {
        enc_field(&mut out, &fs[k]);
        proof {
            assert(views_of(fs@)[k as int] == fs@[k as int].v());
            lemma_enc_fields_push(views_of(fs@).take(k as int), views_of(fs@)[k as int]);
            assert(views_of(fs@).take(k as int).push(views_of(fs@)[k as int])
                =~= views_of(fs@).take(k + 1 as int));
        }
        k = k + 1;
    }
    proof {
        assert(views_of(fs@).take(fs@.len() as int) =~= views_of(fs@));
    }
    out
}

// ---------------------------------------------------------------------------
// Appending one element to an encoded list.
// ---------------------------------------------------------------------------

proof fn lemma_enc_str_list_push(l: Seq<Seq<char>>, x: Seq<char>)
    ensures
        spec_enc_str_list(l.push(x)) == spec_enc_str_list(l) + spec_enc_str(x),
    decreases l.len(),
{
    if l.len() == 0 {
        assert(l.push(x).drop_first() =~= l);
        assert(l.push(x)[0] == x);
        assert(spec_enc_str_list(l) =~= Seq::<u8>::empty());
        assert(spec_enc_str_list(l.push(x)) =~= spec_enc_str_list(l) + spec_enc_str(x));
    } else {
        lemma_enc_str_list_push(l.drop_first(), x);
        assert(l.push(x).drop_first() =~= l.drop_first().push(x));
        assert(l.push(x)[0] == l[0]);
        assert(spec_enc_str_list(l.push(x)) =~= spec_enc_str_list(l) + spec_enc_str(x));
    }
}

proof fn lemma_enc_u64_list_push(l: Seq<u64>, x: u64)
    ensures
        spec_enc_u64_list(l.push(x)) == spec_enc_u64_list(l) + spec_enc_u64(x),
    decreases l.len(),
{
    if l.len() == 0 {
        assert(l.push(x).drop_first() =~= l);
        assert(l.push(x)[0] == x);
        assert(spec_enc_u64_list(l) =~= Seq::<u8>::empty());
        assert(spec_enc_u64_list(l.push(x)) =~= spec_enc_u64_list(l) + spec_enc_u64(x));
    } else {
        lemma_enc_u64_list_push(l.drop_first(), x);
        assert(l.push(x).drop_first() =~= l.drop_first().push(x));
        assert(l.push(x)[0] == l[0]);
        assert(spec_enc_u64_list(l.push(x)) =~= spec_enc_u64_list(l) + spec_enc_u64(x));
    }
}

proof fn lemma_enc_bytes_list_push(l: Seq<Seq<u8>>, x: Seq<u8>)
    ensures
        spec_enc_bytes_list(l.push(x)) == spec_enc_bytes_list(l) + spec_enc_u64(x.len() as u64)
            + x,
    decreases l.len(),
{
    if l.len() == 0 {
        assert(l.push(x).drop_first() =~= l);
        assert(l.push(x)[0] == x);
        assert(spec_enc_bytes_list(l) =~= Seq::<u8>::empty());
        assert(spec_enc_bytes_list(l.push(x)) =~= spec_enc_bytes_list(l)
            + spec_enc_u64(x.len() as u64) + x);
    } else {
        lemma_enc_bytes_list_push(l.drop_first(), x);
        assert(l.push(x).drop_first() =~= l.drop_first().push(x));
        assert(l.push(x)[0] == l[0]);
        assert(spec_enc_bytes_list(l.push(x)) =~= spec_enc_bytes_list(l)
            + spec_enc_u64(x.len() as u64) + x);
    }
}

// ---------------------------------------------------------------------------
// Executable decoders.  Each decoder is sound (what it accepts re-encodes to
// exactly the bytes it consumed) and complete (it accepts whenever the bytes
// from the cursor on begin with an encoding).
// ---------------------------------------------------------------------------

/// A suffix splits at any position into a subrange and the rest.
pub proof fn lemma_skip_split(b: Seq<u8>, i: int, j: int)
    requires
        0 <= i <= j <= b.len(),
    ensures
        b.skip(i) == b.subrange(i, j) + b.skip(j),
{
    assert(b.skip(i) =~= b.subrange(i, j) + b.skip(j));
}

pub fn dec_u64(b: &Vec<u8>, i: usize) -> (r: Option<(u64, usize)>)
    requires
        i <= b@.len(),
    ensures
        r matches Some((v, j)) ==> j == i + 8 && j <= b@.len() && b@.subrange(
            i as int,
            j as int,
        ) == spec_enc_u64(v),
        r is None ==> i + 8 > b@.len(),
{
    proof {
        lemma_auto_spec_u64_to_from_le_bytes();
    }
    if b.len() - i >= 8 {
        let s = slice_subrange(b.as_slice(), i, i + 8);
        let v = u64_from_le_bytes(s);
        Some((v, i + 8))
    } else {
        None
    }
}

fn dec_byte(b: &Vec<u8>, i: usize) -> (r: Option<(u8, usize)>)
    requires
        i <= b@.len(),
    ensures
        r matches Some((v, j)) ==> j == i + 1 && j <= b@.len() && b@[i as int] == v,
        r is None ==> i + 1 > b@.len(),
{
    if i < b.len() {
        Some((b[i], i + 1))
    } else {
        None
    }
}

/// Relies on String::from_utf8: it succeeds exactly on the valid UTF-8 byte
/// sequences, and the characters it returns encode back to the input bytes.
#[verifier::external_body]
fn string_from_utf8(bytes: Vec<u8>) -> (r: Option<String>)
    ensures
        r matches Some(s) ==> vstd::utf8::encode_utf8(s@) == bytes@,
        vstd::utf8::valid_utf8(bytes@) ==> r is Some,
{
    String::from_utf8(bytes).ok()
}

pub fn dec_str(b: &Vec<u8>, i: usize) -> (r: Option<(String, usize)>)
    requires
        i <= b@.len(),
    ensures
        r matches Some((s, j)) ==> i <= j <= b@.len() && b@.subrange(i as int, j as int)
            == spec_enc_str(s@) && str_bounded(s@),
        forall|s: Seq<char>, rest: Seq<u8>| #![trigger spec_enc_str(s).add(rest)]
            str_bounded(s) && b@.skip(i as int) == spec_enc_str(s) + rest ==> r is Some,
{
    proof {
        lemma_auto_spec_u64_to_from_le_bytes();
    }
    let (n, j) = match dec_u64(b, i) {
        Some(x) => x,
        None => {
            proof {
                assert forall|s: Seq<char>, rest: Seq<u8>| #![trigger spec_enc_str(s).add(rest)]
                    str_bounded(s) && b@.skip(i as int) == spec_enc_str(s) + rest implies false by {
                    assert(b@.skip(i as int).len() == b@.len() - i);
                    assert(spec_enc_str(s).len() >= 8);
                }
            }
            return None;
        },
    };
    let rem = b.len() - j;
    if n > rem as u64 {
        proof {
            assert forall|s: Seq<char>, rest: Seq<u8>| #![trigger spec_enc_str(s).add(rest)]
                str_bounded(s) && b@.skip(i as int) == spec_enc_str(s) + rest implies false by {
                let u = vstd::utf8::encode_utf8(s);
                lemma_skip_split(b@, i as int, j as int);
                assert(spec_enc_str(s) + rest =~= spec_enc_u64(u.len() as u64) + (u + rest));
                lemma_enc_u64_prefix(n, u.len() as u64, b@.skip(j as int), u + rest);
                assert(b@.skip(j as int).len() == b@.len() - j);
            }
        }
        return None;
    }
    let m = j + (n as usize);
    let bytes = slice_to_vec(slice_subrange(b.as_slice(), j, m));
    let ghost chunk = b@.subrange(j as int, m as int);
    match string_from_utf8(bytes) {
        Some(s) => {
            proof {
                assert(vstd::utf8::encode_utf8(s@) == chunk);
                assert(b@.subrange(i as int, m as int) =~= spec_enc_u64(n) + chunk);
                assert(chunk.len() == n);
                assert(spec_enc_str(s@) == spec_enc_u64(n) + chunk);
            }
            Some((s, m))
        },
        None => {
            proof {
                assert forall|s: Seq<char>, rest: Seq<u8>| #![trigger spec_enc_str(s).add(rest)]
                    str_bounded(s) && b@.skip(i as int) == spec_enc_str(s) + rest implies false by {
                    let u = vstd::utf8::encode_utf8(s);
                    lemma_skip_split(b@, i as int, j as int);
                    assert(spec_enc_str(s) + rest =~= spec_enc_u64(u.len() as u64) + (u + rest));
                    lemma_enc_u64_prefix(n, u.len() as u64, b@.skip(j as int), u + rest);
                    lemma_skip_split(b@, j as int, m as int);
                    lemma_concat_split(chunk, b@.skip(m as int), u, rest);
                    vstd::utf8::encode_utf8_valid_utf8(s);
                }
            }
            None
        },
    }
}

proof fn lemma_enc_str_list_decompose(gl: Seq<Seq<char>>, k: int)
    requires
        0 <= k < gl.len(),
    ensures
        spec_enc_str_list(gl.skip(k)) == spec_enc_str(gl[k]) + spec_enc_str_list(gl.skip(k + 1)),
{
    assert(gl.skip(k)[0] == gl[k]);
    assert(gl.skip(k).drop_first() =~= gl.skip(k + 1));
}

proof fn lemma_enc_u64_list_decompose(gl: Seq<u64>, k: int)
    requires
        0 <= k < gl.len(),
    ensures
        spec_enc_u64_list(gl.skip(k)) == spec_enc_u64(gl[k]) + spec_enc_u64_list(gl.skip(k + 1)),
{
    assert(gl.skip(k)[0] == gl[k]);
    assert(gl.skip(k).drop_first() =~= gl.skip(k + 1));
}

proof fn lemma_enc_bytes_list_decompose(gl: Seq<Seq<u8>>, k: int)
    requires
        0 <= k < gl.len(),
    ensures
        spec_enc_bytes_list(gl.skip(k)) == spec_enc_u64(gl[k].len() as u64) + gl[k]
            + spec_enc_bytes_list(gl.skip(k + 1)),
{
    assert(gl.skip(k)[0] == gl[k]);
    assert(gl.skip(k).drop_first() =~= gl.skip(k + 1));
}

fn dec_str_list(b: &Vec<u8>, i: usize, n: u64) -> (r: Option<(Vec<String>, usize)>)
    requires
        i <= b@.len(),
    ensures
        r matches Some((l, j)) ==> i <= j <= b@.len() && l.deep_view().len() == n && b@.subrange(
            i as int,
            j as int,
        ) == spec_enc_str_list(l.deep_view()) && (forall|k: int|
            0 <= k < l.deep_view().len() ==> str_bounded(#[trigger] l.deep_view()[k])),
        forall|gl: Seq<Seq<char>>, rest: Seq<u8>| #![trigger spec_enc_str_list(gl).add(rest)]
            gl.len() == n && (forall|k: int| 0 <= k < gl.len() ==> str_bounded(#[trigger] gl[k]))
                && b@.skip(i as int) == spec_enc_str_list(gl) + rest ==> r is Some,
{
    let mut acc: Vec<String> = Vec::new();
    let mut pos: usize = i;
    let mut k: u64 = 0;
    proof {
        assert(acc.deep_view() =~= Seq::<Seq<char>>::empty());
        assert(b@.subrange(i as int, i as int) =~= spec_enc_str_list(acc.deep_view()));
        assert forall|gl: Seq<Seq<char>>, rest: Seq<u8>| #![trigger spec_enc_str_list(gl).add(rest)]
            gl.len() == n && (forall|q: int| 0 <= q < gl.len() ==> str_bounded(#[trigger] gl[q]))
                && b@.skip(i as int) == spec_enc_str_list(gl) + rest implies gl.take(0int)
            == acc.deep_view() && b@.skip(i as int) == spec_enc_str_list(gl.skip(0int)) + rest by {
            assert(gl.take(0int) =~= acc.deep_view());
            assert(gl.skip(0int) =~= gl);
        }
    }
    while k < n
        invariant
            i <= pos <= b@.len(),
            k <= n,
            acc.deep_view().len() == k,
            b@.subrange(i as int, pos as int) == spec_enc_str_list(acc.deep_view()),
            forall|q: int| 0 <= q < k ==> str_bounded(#[trigger] acc.deep_view()[q]),
            forall|gl: Seq<Seq<char>>, rest: Seq<u8>| #![trigger spec_enc_str_list(gl).add(rest)]
                gl.len() == n && (forall|q: int|
                    0 <= q < gl.len() ==> str_bounded(#[trigger] gl[q])) && b@.skip(i as int)
                    == spec_enc_str_list(gl) + rest ==> gl.take(k as int) == acc.deep_view()
                    && b@.skip(pos as int) == spec_enc_str_list(gl.skip(k as int)) + rest,
        decreases n - k,
    {
        let ghost old_acc = acc;
        let ghost old_pos = pos;
        match dec_str(b, pos) {
            Some((s, j2)) => {
                acc.push(s);
                proof {
                    assert(acc.deep_view() =~~= old_acc.deep_view().push(s@));
                    lemma_enc_str_list_push(old_acc.deep_view(), s@);
                    assert(b@.subrange(i as int, j2 as int) =~= b@.subrange(i as int, old_pos as int)
                        + b@.subrange(old_pos as int, j2 as int));
                    assert forall|gl: Seq<Seq<char>>, rest: Seq<u8>| #![trigger spec_enc_str_list(gl).add(rest)]
                        gl.len() == n && (forall|q: int|
                            0 <= q < gl.len() ==> str_bounded(#[trigger] gl[q])) && b@.skip(
                            i as int,
                        ) == spec_enc_str_list(gl) + rest implies gl.take((k + 1) as int)
                        == acc.deep_view() && b@.skip(j2 as int) == spec_enc_str_list(
                        gl.skip((k + 1) as int),
                    ) + rest by {
                        lemma_enc_str_list_decompose(gl, k as int);
                        assert(spec_enc_str_list(gl.skip(k as int)) + rest =~= spec_enc_str(
                            gl[k as int],
                        ) + (spec_enc_str_list(gl.skip((k + 1) as int)) + rest));
                        lemma_skip_split(b@, old_pos as int, j2 as int);
                        lemma_enc_str_prefix(s@, gl[k as int], b@.skip(j2 as int),
                            spec_enc_str_list(gl.skip((k + 1) as int)) + rest);
                        assert(gl.take((k + 1) as int) =~= gl.take(k as int).push(gl[k as int]));
                    }
                }
                pos = j2;
                k = k + 1;
            },
            None => {
                proof {
                    assert forall|gl: Seq<Seq<char>>, rest: Seq<u8>| #![trigger spec_enc_str_list(gl).add(rest)]
                        gl.len() == n && (forall|q: int|
                            0 <= q < gl.len() ==> str_bounded(#[trigger] gl[q])) && b@.skip(
                            i as int,
                        ) == spec_enc_str_list(gl) + rest implies false by {
                        lemma_enc_str_list_decompose(gl, k as int);
                        assert(spec_enc_str_list(gl.skip(k as int)) + rest =~= spec_enc_str(
                            gl[k as int],
                        ) + (spec_enc_str_list(gl.skip((k + 1) as int)) + rest));
                    }
                }
                return None;
            },
        }
    }
    Some((acc, pos))
}

fn dec_u64_list(b: &Vec<u8>, i: usize, n: u64) -> (r: Option<(Vec<u64>, usize)>)
    requires
        i <= b@.len(),
    ensures
        r matches Some((l, j)) ==> i <= j <= b@.len() && l.deep_view().len() == n && b@.subrange(
            i as int,
            j as int,
        ) == spec_enc_u64_list(l.deep_view()),
        forall|gl: Seq<u64>, rest: Seq<u8>| #![trigger spec_enc_u64_list(gl).add(rest)]
            gl.len() == n && b@.skip(i as int) == spec_enc_u64_list(gl) + rest ==> r is Some,
{
    let mut acc: Vec<u64> = Vec::new();
    let mut pos: usize = i;
    let mut k: u64 = 0;
    proof {
        assert(acc.deep_view() =~= Seq::<u64>::empty());
        assert(b@.subrange(i as int, i as int) =~= spec_enc_u64_list(acc.deep_view()));
        assert forall|gl: Seq<u64>, rest: Seq<u8>| #![trigger spec_enc_u64_list(gl).add(rest)]
            gl.len() == n && b@.skip(i as int) == spec_enc_u64_list(gl) + rest implies gl.take(0int)
            == acc.deep_view() && b@.skip(i as int) == spec_enc_u64_list(gl.skip(0int)) + rest by {
            assert(gl.take(0int) =~= acc.deep_view());
            assert(gl.skip(0int) =~= gl);
        }
    }
    while k < n
        invariant
            i <= pos <= b@.len(),
            k <= n,
            acc.deep_view().len() == k,
            b@.subrange(i as int, pos as int) == spec_enc_u64_list(acc.deep_view()),
            forall|gl: Seq<u64>, rest: Seq<u8>| #![trigger spec_enc_u64_list(gl).add(rest)]
                gl.len() == n && b@.skip(i as int) == spec_enc_u64_list(gl) + rest ==> gl.take(
                    k as int,
                ) == acc.deep_view() && b@.skip(pos as int) == spec_enc_u64_list(gl.skip(k as int))
                    + rest,
        decreases n - k,
    {
        let ghost old_acc = acc;
        let ghost old_pos = pos;
        match dec_u64(b, pos) {
            Some((v, j2)) => {
                acc.push(v);
                proof {
                    assert(acc.deep_view() =~~= old_acc.deep_view().push(v));
                    lemma_enc_u64_list_push(old_acc.deep_view(), v);
                    assert(b@.subrange(i as int, j2 as int) =~= b@.subrange(i as int, old_pos as int)
                        + b@.subrange(old_pos as int, j2 as int));
                    assert forall|gl: Seq<u64>, rest: Seq<u8>| #![trigger spec_enc_u64_list(gl).add(rest)]
                        gl.len() == n && b@.skip(i as int) == spec_enc_u64_list(gl)
                            + rest implies gl.take((k + 1) as int) == acc.deep_view() && b@.skip(
                        j2 as int,
                    ) == spec_enc_u64_list(gl.skip((k + 1) as int)) + rest by {
                        lemma_enc_u64_list_decompose(gl, k as int);
                        assert(spec_enc_u64_list(gl.skip(k as int)) + rest =~= spec_enc_u64(
                            gl[k as int],
                        ) + (spec_enc_u64_list(gl.skip((k + 1) as int)) + rest));
                        lemma_skip_split(b@, old_pos as int, j2 as int);
                        lemma_enc_u64_prefix(v, gl[k as int], b@.skip(j2 as int),
                            spec_enc_u64_list(gl.skip((k + 1) as int)) + rest);
                        assert(gl.take((k + 1) as int) =~= gl.take(k as int).push(gl[k as int]));
                    }
                }
                pos = j2;
                k = k + 1;
            },
            None => {
                proof {
                    assert forall|gl: Seq<u64>, rest: Seq<u8>| #![trigger spec_enc_u64_list(gl).add(rest)]
                        gl.len() == n && b@.skip(i as int) == spec_enc_u64_list(gl)
                            + rest implies false by {
                        lemma_auto_spec_u64_to_from_le_bytes();
                        lemma_enc_u64_list_decompose(gl, k as int);
                        assert(spec_enc_u64_list(gl.skip(k as int)) + rest =~= spec_enc_u64(
                            gl[k as int],
                        ) + (spec_enc_u64_list(gl.skip((k + 1) as int)) + rest));
                        assert(b@.skip(pos as int).len() == b@.len() - pos);
                        assert(spec_enc_u64(gl[k as int]).len() == 8);
                    }
                }
                return None;
            },
        }
    }
    Some((acc, pos))
}

fn dec_bytes_list(b: &Vec<u8>, i: usize, n: u64) -> (r: Option<(Vec<Vec<u8>>, usize)>)
    requires
        i <= b@.len(),
    ensures
        r matches Some((l, j)) ==> i <= j <= b@.len() && l.deep_view().len() == n && b@.subrange(
            i as int,
            j as int,
        ) == spec_enc_bytes_list(l.deep_view()) && (forall|k: int|
            0 <= k < l.deep_view().len() ==> (#[trigger] l.deep_view()[k]).len() < len_limit()),
        forall|gl: Seq<Seq<u8>>, rest: Seq<u8>| #![trigger spec_enc_bytes_list(gl).add(rest)]
            gl.len() == n && (forall|k: int|
                0 <= k < gl.len() ==> (#[trigger] gl[k]).len() < len_limit()) && b@.skip(i as int)
                == spec_enc_bytes_list(gl) + rest ==> r is Some,
{
    let mut acc: Vec<Vec<u8>> = Vec::new();
    let mut pos: usize = i;
    let mut k: u64 = 0;
    proof {
        assert(acc.deep_view() =~= Seq::<Seq<u8>>::empty());
        assert(b@.subrange(i as int, i as int) =~= spec_enc_bytes_list(acc.deep_view()));
        assert forall|gl: Seq<Seq<u8>>, rest: Seq<u8>| #![trigger spec_enc_bytes_list(gl).add(rest)]
            gl.len() == n && (forall|q: int|
                0 <= q < gl.len() ==> (#[trigger] gl[q]).len() < len_limit()) && b@.skip(i as int)
                == spec_enc_bytes_list(gl) + rest implies gl.take(0int) == acc.deep_view()
            && b@.skip(i as int) == spec_enc_bytes_list(gl.skip(0int)) + rest by {
            assert(gl.take(0int) =~= acc.deep_view());
            assert(gl.skip(0int) =~= gl);
        }
    }
    while k < n
        invariant
            i <= pos <= b@.len(),
            k <= n,
            acc.deep_view().len() == k,
            b@.subrange(i as int, pos as int) == spec_enc_bytes_list(acc.deep_view()),
            forall|q: int| 0 <= q < k ==> (#[trigger] acc.deep_view()[q]).len() < len_limit(),
            forall|gl: Seq<Seq<u8>>, rest: Seq<u8>| #![trigger spec_enc_bytes_list(gl).add(rest)]
                gl.len() == n && (forall|q: int|
                    0 <= q < gl.len() ==> (#[trigger] gl[q]).len() < len_limit()) && b@.skip(
                    i as int,
                ) == spec_enc_bytes_list(gl) + rest ==> gl.take(k as int) == acc.deep_view()
                    && b@.skip(pos as int) == spec_enc_bytes_list(gl.skip(k as int)) + rest,
        decreases n - k,
    {
        let ghost old_acc = acc;
        let ghost old_pos = pos;
        let (ne, j) = match dec_u64(b, pos) {
            Some(x) => x,
            None => {
                proof {
                    assert forall|gl: Seq<Seq<u8>>, rest: Seq<u8>| #![trigger spec_enc_bytes_list(gl).add(rest)]
                        gl.len() == n && (forall|q: int|
                            0 <= q < gl.len() ==> (#[trigger] gl[q]).len() < len_limit())
                            && b@.skip(i as int) == spec_enc_bytes_list(gl) + rest implies false by {
                        lemma_auto_spec_u64_to_from_le_bytes();
                        lemma_enc_bytes_list_decompose(gl, k as int);
                        assert(spec_enc_bytes_list(gl.skip(k as int)) + rest =~= spec_enc_u64(
                            gl[k as int].len() as u64,
                        ) + (gl[k as int] + (spec_enc_bytes_list(gl.skip((k + 1) as int)) + rest)));
                        assert(b@.skip(pos as int).len() == b@.len() - pos);
                    }
                }
                return None;
            },
        };
        let rem = b.len() - j;
        if ne > rem as u64 {
            proof {
                assert forall|gl: Seq<Seq<u8>>, rest: Seq<u8>| #![trigger spec_enc_bytes_list(gl).add(rest)]
                    gl.len() == n && (forall|q: int|
                        0 <= q < gl.len() ==> (#[trigger] gl[q]).len() < len_limit()) && b@.skip(
                        i as int,
                    ) == spec_enc_bytes_list(gl) + rest implies false by {
                    lemma_auto_spec_u64_to_from_le_bytes();
                    lemma_enc_bytes_list_decompose(gl, k as int);
                    assert(spec_enc_bytes_list(gl.skip(k as int)) + rest =~= spec_enc_u64(
                        gl[k as int].len() as u64,
                    ) + (gl[k as int] + (spec_enc_bytes_list(gl.skip((k + 1) as int)) + rest)));
                    lemma_skip_split(b@, old_pos as int, j as int);
                    lemma_enc_u64_prefix(ne, gl[k as int].len() as u64, b@.skip(j as int),
                        gl[k as int] + (spec_enc_bytes_list(gl.skip((k + 1) as int)) + rest));
                    assert(b@.skip(j as int).len() == b@.len() - j);
                }
            }
            return None;
        }
        let m = j + (ne as usize);
        let chunk = slice_to_vec(slice_subrange(b.as_slice(), j, m));
        acc.push(chunk);
        proof {
            assert(acc.deep_view() =~~= old_acc.deep_view().push(b@.subrange(j as int, m as int)));
            lemma_enc_bytes_list_push(old_acc.deep_view(), b@.subrange(j as int, m as int));
            assert(b@.subrange(i as int, m as int) =~= b@.subrange(i as int, old_pos as int)
                + (spec_enc_u64(ne) + b@.subrange(j as int, m as int)));
            assert forall|gl: Seq<Seq<u8>>, rest: Seq<u8>| #![trigger spec_enc_bytes_list(gl).add(rest)]
                gl.len() == n && (forall|q: int|
                    0 <= q < gl.len() ==> (#[trigger] gl[q]).len() < len_limit()) && b@.skip(
                    i as int,
                ) == spec_enc_bytes_list(gl) + rest implies gl.take((k + 1) as int)
                == acc.deep_view() && b@.skip(m as int) == spec_enc_bytes_list(
                gl.skip((k + 1) as int),
            ) + rest by {
                lemma_enc_bytes_list_decompose(gl, k as int);
                assert(spec_enc_bytes_list(gl.skip(k as int)) + rest =~= spec_enc_u64(
                    gl[k as int].len() as u64,
                ) + (gl[k as int] + (spec_enc_bytes_list(gl.skip((k + 1) as int)) + rest)));
                lemma_skip_split(b@, old_pos as int, j as int);
                lemma_enc_u64_prefix(ne, gl[k as int].len() as u64, b@.skip(j as int),
                    gl[k as int] + (spec_enc_bytes_list(gl.skip((k + 1) as int)) + rest));
                lemma_skip_split(b@, j as int, m as int);
                lemma_concat_split(b@.subrange(j as int, m as int), b@.skip(m as int),
                    gl[k as int], spec_enc_bytes_list(gl.skip((k + 1) as int)) + rest);
                assert(gl.take((k + 1) as int) =~= gl.take(k as int).push(gl[k as int]));
            }
        }
        pos = m;
        k = k + 1;
    }
    Some((acc, pos))
}

/// A suffix that begins with one byte `t` followed by `p` pins down `b[i]`.
proof fn lemma_byte_head(b: Seq<u8>, i: int, t: u8, p: Seq<u8>)
    requires
        0 <= i <= b.len(),
        b.skip(i) == seq![t] + p,
    ensures
        i < b.len(),
        b[i] == t,
        b.skip(i + 1) == p,
{
    assert(b.skip(i).len() == b.len() - i);
    assert((seq![t] + p).len() == 1 + p.len());
    assert(b.skip(i)[0] == t);
    assert(b.skip(i + 1) =~= p) by {
        assert(forall|q: int|
            0 <= q < p.len() ==> b.skip(i + 1)[q] == b.skip(i)[q + 1] && (seq![t] + p)[q + 1]
                == p[q]);
    }
}

/// A suffix that begins with an encoded field pins down the tag byte and the
/// payload suffix.
proof fn lemma_field_head(b: Seq<u8>, i: int, g: FieldV, rest: Seq<u8>)
    requires
        0 <= i <= b.len(),
        b.skip(i) == spec_enc_field(g) + rest,
    ensures
        i < b.len(),
        b[i] == field_tag(g),
        b.skip(i + 1) == spec_enc_payload(g) + rest,
{
    assert(b.skip(i) == seq![field_tag(g)] + (spec_enc_payload(g) + rest)) by {
        assert(seq![field_tag(g)] + (spec_enc_payload(g) + rest) =~= (seq![field_tag(g)]
            + spec_enc_payload(g)) + rest);
    }
    lemma_byte_head(b, i, field_tag(g), spec_enc_payload(g) + rest);
}

/// A decoded length prefix agrees with the length prefix of a hypothesised
/// encoding starting at the same position.
proof fn lemma_u64_head(b: Seq<u8>, i: int, n: u64, v: u64, j: int, p: Seq<u8>)
    requires
        0 <= i,
        i + 8 == j <= b.len(),
        b.skip(i) == spec_enc_u64(n) + p,
        b.subrange(i, j) == spec_enc_u64(v),
    ensures
        v == n,
        b.skip(j) == p,
{
    lemma_skip_split(b, i, j);
    lemma_enc_u64_prefix(v, n, b.skip(j), p);
}

/// Decodes one field at position `i`: sound and complete.
pub fn dec_field(b: &Vec<u8>, i: usize) -> (r: Option<(Field, usize)>)
    requires
        i <= b@.len(),
    ensures
        r matches Some((f, j)) ==> i < j <= b@.len() && b@.subrange(i as int, j as int)
            == spec_enc_field(f.v()) && field_bounded(f.v()),
        forall|g: FieldV, rest: Seq<u8>| #![trigger spec_enc_field(g).add(rest)]
            field_bounded(g) && b@.skip(i as int) == spec_enc_field(g) + rest ==> r is Some,
{
    let (tag, it) = match dec_byte(b, i) {
        Some(x) => x,
        None => {
            proof {
                assert forall|g: FieldV, rest: Seq<u8>| #![trigger spec_enc_field(g).add(rest)]
                    field_bounded(g) && b@.skip(i as int) == spec_enc_field(g)
                        + rest implies false by {
                    lemma_field_head(b@, i as int, g, rest);
                }
            }
            return None;
        },
    };
    if tag == TAG_U64 {
        match dec_u64(b, it) {
            Some((v, j)) => {
                proof {
                    assert(b@.subrange(i as int, j as int) =~= seq![TAG_U64] + b@.subrange(
                        it as int,
                        j as int,
                    ));
                }
                Some((Field::U64(v), j))
            },
            None => {
                proof {
                    assert forall|g: FieldV, rest: Seq<u8>| #![trigger spec_enc_field(g).add(rest)]
                        field_bounded(g) && b@.skip(i as int) == spec_enc_field(g)
                            + rest implies false by {
                        lemma_auto_spec_u64_to_from_le_bytes();
                        lemma_field_head(b@, i as int, g, rest);
                        match g {
                            FieldV::U64(vg) => {
                                assert(b@.skip(it as int).len() == b@.len() - it);
                            },
                            _ => {},
                        }
                    }
                }
                None
            },
        }
    } else if tag == TAG_B {
        match dec_byte(b, it) {
            Some((v, j)) if v <= 1 => {
                proof {
                    assert(b@.subrange(i as int, j as int) =~= spec_enc_field(
                        Field::B(v == 1).v(),
                    ));
                }
                Some((Field::B(v == 1), j))
            },
            _ => {
                proof {
                    assert forall|g: FieldV, rest: Seq<u8>| #![trigger spec_enc_field(g).add(rest)]
                        field_bounded(g) && b@.skip(i as int) == spec_enc_field(g)
                            + rest implies false by {
                        lemma_field_head(b@, i as int, g, rest);
                        match g {
                            FieldV::B(x) => {
                                lemma_byte_head(b@, it as int, if x { 1u8 } else { 0u8 }, rest);
                            },
                            _ => {},
                        }
                    }
                }
                None
            },
        }
    } else if tag == TAG_S {
        match dec_str(b, it) {
            Some((s, j)) => {
                proof {
                    assert(b@.subrange(i as int, j as int) =~= seq![TAG_S] + b@.subrange(
                        it as int,
                        j as int,
                    ));
                }
                Some((Field::S(s), j))
            },
            None => {
                proof {
                    assert forall|g: FieldV, rest: Seq<u8>| #![trigger spec_enc_field(g).add(rest)]
                        field_bounded(g) && b@.skip(i as int) == spec_enc_field(g)
                            + rest implies false by {
                        lemma_field_head(b@, i as int, g, rest);
                        match g {
                            FieldV::S(sg) => {
                                assert(spec_enc_str(sg).add(rest) == b@.skip(it as int));
                            },
                            _ => {},
                        }
                    }
                }
                None
            },
        }
    } else if tag == TAG_OPT_S {
        match dec_byte(b, it) {
            Some((0u8, j)) => {
                proof {
                    assert(b@.subrange(i as int, j as int) =~= spec_enc_field(
                        FieldV::OptS(Option::None),
                    ));
                    assert(Field::OptS(Option::None).v() == FieldV::OptS(
                        Option::<Seq<char>>::None,
                    ));
                }
                Some((Field::OptS(None), j))
            },
            Some((1u8, j)) => {
                match dec_str(b, j) {
                    Some((s, j2)) => {
                        proof {
                            assert(b@.subrange(i as int, j2 as int) =~= seq![TAG_OPT_S] + (seq![
                                1u8,
                            ] + b@.subrange(j as int, j2 as int)));
                            assert(spec_enc_payload(Field::OptS(Some(s)).v()) =~= seq![1u8]
                                + spec_enc_str(s@));
                            assert(spec_enc_field(Field::OptS(Some(s)).v()) =~= seq![TAG_OPT_S] + (
                            seq![1u8] + spec_enc_str(s@)));
                        }
                        Some((Field::OptS(Some(s)), j2))
                    },
                    None => {
                        proof {
                            assert forall|g: FieldV, rest: Seq<u8>|
                                #![trigger spec_enc_field(g).add(rest)]
                                field_bounded(g) && b@.skip(i as int) == spec_enc_field(g)
                                    + rest implies false by {
                                lemma_field_head(b@, i as int, g, rest);
                                match g {
                                    FieldV::OptS(og) => {
                                        match og {
                                            Option::None => {
                                                lemma_byte_head(b@, it as int, 0u8, rest);
                                            },
                                            Option::Some(sg) => {
                                                assert(b@.skip(it as int) == seq![1u8] + (
                                                spec_enc_str(sg) + rest)) by {
                                                    assert(seq![1u8] + (spec_enc_str(sg) + rest)
                                                        =~= (seq![1u8] + spec_enc_str(sg)) + rest);
                                                }
                                                lemma_byte_head(b@, it as int, 1u8, spec_enc_str(
                                                    sg,
                                                ) + rest);
                                                assert(spec_enc_str(sg).add(rest) == b@.skip(
                                                    j as int,
                                                ));
                                            },
                                        }
                                    },
                                    _ => {},
                                }
                            }
                        }
                        None
                    },
                }
            },
            _ => {
                proof {
                    assert forall|g: FieldV, rest: Seq<u8>| #![trigger spec_enc_field(g).add(rest)]
                        field_bounded(g) && b@.skip(i as int) == spec_enc_field(g)
                            + rest implies false by {
                        lemma_field_head(b@, i as int, g, rest);
                        match g {
                            FieldV::OptS(og) => {
                                match og {
                                    Option::None => {
                                        lemma_byte_head(b@, it as int, 0u8, rest);
                                    },
                                    Option::Some(sg) => {
                                        assert(b@.skip(it as int) == seq![1u8] + (spec_enc_str(sg)
                                            + rest)) by {
                                            assert(seq![1u8] + (spec_enc_str(sg) + rest) =~= (seq![
                                                1u8,
                                            ] + spec_enc_str(sg)) + rest);
                                        }
                                        lemma_byte_head(b@, it as int, 1u8, spec_enc_str(sg)
                                            + rest);
                                    },
                                }
                            },
                            _ => {},
                        }
                    }
                }
                None
            },
        }
    } else if tag == TAG_S_LIST {
        let (n, j) = match dec_u64(b, it) {
            Some(x) => x,
            None => {
                proof {
                    assert forall|g: FieldV, rest: Seq<u8>| #![trigger spec_enc_field(g).add(rest)]
                        field_bounded(g) && b@.skip(i as int) == spec_enc_field(g)
                            + rest implies false by {
                        lemma_auto_spec_u64_to_from_le_bytes();
                        lemma_field_head(b@, i as int, g, rest);
                        match g {
                            FieldV::SList(lg) => {
                                assert(b@.skip(it as int) == spec_enc_u64(lg.len() as u64) + (
                                spec_enc_str_list(lg) + rest)) by {
                                    assert(spec_enc_u64(lg.len() as u64) + (spec_enc_str_list(lg)
                                        + rest) =~= (spec_enc_u64(lg.len() as u64)
                                        + spec_enc_str_list(lg)) + rest);
                                }
                                assert(b@.skip(it as int).len() == b@.len() - it);
                            },
                            _ => {},
                        }
                    }
                }
                return None;
            },
        };
        match dec_str_list(b, j, n) {
            Some((l, j2)) => {
                proof {
                    assert(b@.subrange(i as int, j2 as int) =~= seq![TAG_S_LIST] + (b@.subrange(
                        it as int,
                        j as int,
                    ) + b@.subrange(j as int, j2 as int)));
                    assert(spec_enc_field(Field::SList(l).v()) =~= seq![TAG_S_LIST] + (
                    spec_enc_u64(l.deep_view().len() as u64) + spec_enc_str_list(l.deep_view())));
                }
                Some((Field::SList(l), j2))
            },
            None => {
                proof {
                    assert forall|g: FieldV, rest: Seq<u8>| #![trigger spec_enc_field(g).add(rest)]
                        field_bounded(g) && b@.skip(i as int) == spec_enc_field(g)
                            + rest implies false by {
                        lemma_field_head(b@, i as int, g, rest);
                        match g {
                            FieldV::SList(lg) => {
                                assert(b@.skip(it as int) == spec_enc_u64(lg.len() as u64) + (
                                spec_enc_str_list(lg) + rest)) by {
                                    assert(spec_enc_u64(lg.len() as u64) + (spec_enc_str_list(lg)
                                        + rest) =~= (spec_enc_u64(lg.len() as u64)
                                        + spec_enc_str_list(lg)) + rest);
                                }
                                lemma_u64_head(b@, it as int, lg.len() as u64, n, j as int,
                                    spec_enc_str_list(lg) + rest);
                                assert(spec_enc_str_list(lg).add(rest) == b@.skip(j as int));
                            },
                            _ => {},
                        }
                    }
                }
                None
            },
        }
    } else if tag == TAG_OPT_S_LIST {
        match dec_byte(b, it) {
            Some((0u8, j)) => {
                proof {
                    assert(b@.subrange(i as int, j as int) =~= spec_enc_field(
                        FieldV::OptSList(Option::None),
                    ));
                }
                Some((Field::OptSList(None), j))
            },
            Some((1u8, j)) => {
                let (n, j1) = match dec_u64(b, j) {
                    Some(x) => x,
                    None => {
                        proof {
                            assert forall|g: FieldV, rest: Seq<u8>|
                                #![trigger spec_enc_field(g).add(rest)]
                                field_bounded(g) && b@.skip(i as int) == spec_enc_field(g)
                                    + rest implies false by {
                                lemma_auto_spec_u64_to_from_le_bytes();
                                lemma_field_head(b@, i as int, g, rest);
                                match g {
                                    FieldV::OptSList(og) => {
                                        match og {
                                            Option::None => {
                                                lemma_byte_head(b@, it as int, 0u8, rest);
                                            },
                                            Option::Some(lg) => {
                                                let body = spec_enc_u64(lg.len() as u64)
                                                    + spec_enc_str_list(lg);
                                                assert(b@.skip(it as int) == seq![1u8] + (body
                                                    + rest)) by {
                                                    assert(seq![1u8] + (body + rest) =~= (seq![1u8]
                                                        + body) + rest);
                                                }
                                                lemma_byte_head(b@, it as int, 1u8, body + rest);
                                                assert(b@.skip(j as int) == spec_enc_u64(
                                                    lg.len() as u64,
                                                ) + (spec_enc_str_list(lg) + rest)) by {
                                                    assert(spec_enc_u64(lg.len() as u64) + (
                                                    spec_enc_str_list(lg) + rest) =~= body + rest);
                                                }
                                                assert(b@.skip(j as int).len() == b@.len() - j);
                                            },
                                        }
                                    },
                                    _ => {},
                                }
                            }
                        }
                        return None;
                    },
                };
                match dec_str_list(b, j1, n) {
                    Some((l, j2)) => {
                        proof {
                            assert(b@.subrange(i as int, j2 as int) =~= seq![TAG_OPT_S_LIST] + (
                            seq![1u8] + (b@.subrange(j as int, j1 as int) + b@.subrange(
                                j1 as int,
                                j2 as int,
                            ))));
                            assert(spec_enc_field(Field::OptSList(Some(l)).v()) =~= seq![
                                TAG_OPT_S_LIST,
                            ] + (seq![1u8] + (spec_enc_u64(l.deep_view().len() as u64)
                                + spec_enc_str_list(l.deep_view()))));
                        }
                        Some((Field::OptSList(Some(l)), j2))
                    },
                    None => {
                        proof {
                            assert forall|g: FieldV, rest: Seq<u8>|
                                #![trigger spec_enc_field(g).add(rest)]
                                field_bounded(g) && b@.skip(i as int) == spec_enc_field(g)
                                    + rest implies false by {
                                lemma_field_head(b@, i as int, g, rest);
                                match g {
                                    FieldV::OptSList(og) => {
                                        match og {
                                            Option::None => {
                                                lemma_byte_head(b@, it as int, 0u8, rest);
                                            },
                                            Option::Some(lg) => {
                                                let body = spec_enc_u64(lg.len() as u64)
                                                    + spec_enc_str_list(lg);
                                                assert(b@.skip(it as int) == seq![1u8] + (body
                                                    + rest)) by {
                                                    assert(seq![1u8] + (body + rest) =~= (seq![1u8]
                                                        + body) + rest);
                                                }
                                                lemma_byte_head(b@, it as int, 1u8, body + rest);
                                                assert(b@.skip(j as int) == spec_enc_u64(
                                                    lg.len() as u64,
                                                ) + (spec_enc_str_list(lg) + rest)) by {
                                                    assert(spec_enc_u64(lg.len() as u64) + (
                                                    spec_enc_str_list(lg) + rest) =~= body + rest);
                                                }
                                                lemma_u64_head(b@, j as int, lg.len() as u64, n,
                                                    j1 as int, spec_enc_str_list(lg) + rest);
                                                assert(spec_enc_str_list(lg).add(rest) == b@.skip(
                                                    j1 as int,
                                                ));
                                            },
                                        }
                                    },
                                    _ => {},
                                }
                            }
                        }
                        return None;
                    },
                }
            },
            _ => {
                proof {
                    assert forall|g: FieldV, rest: Seq<u8>| #![trigger spec_enc_field(g).add(rest)]
                        field_bounded(g) && b@.skip(i as int) == spec_enc_field(g)
                            + rest implies false by {
                        lemma_field_head(b@, i as int, g, rest);
                        match g {
                            FieldV::OptSList(og) => {
                                match og {
                                    Option::None => {
                                        lemma_byte_head(b@, it as int, 0u8, rest);
                                    },
                                    Option::Some(lg) => {
                                        let body = spec_enc_u64(lg.len() as u64)
                                            + spec_enc_str_list(lg);
                                        assert(b@.skip(it as int) == seq![1u8] + (body + rest)) by {
                                            assert(seq![1u8] + (body + rest) =~= (seq![1u8] + body)
                                                + rest);
                                        }
                                        lemma_byte_head(b@, it as int, 1u8, body + rest);
                                    },
                                }
                            },
                            _ => {},
                        }
                    }
                }
                None
            },
        }
    } else if tag == TAG_OPT_U64_LIST {
        match dec_byte(b, it) {
            Some((0u8, j)) => {
                proof {
                    assert(b@.subrange(i as int, j as int) =~= spec_enc_field(
                        FieldV::OptU64List(Option::None),
                    ));
                }
                Some((Field::OptU64List(None), j))
            },
            Some((1u8, j)) => {
                let (n, j1) = match dec_u64(b, j) {
                    Some(x) => x,
                    None => {
                        proof {
                            assert forall|g: FieldV, rest: Seq<u8>|
                                #![trigger spec_enc_field(g).add(rest)]
                                field_bounded(g) && b@.skip(i as int) == spec_enc_field(g)
                                    + rest implies false by {
                                lemma_auto_spec_u64_to_from_le_bytes();
                                lemma_field_head(b@, i as int, g, rest);
                                match g {
                                    FieldV::OptU64List(og) => {
                                        match og {
                                            Option::None => {
                                                lemma_byte_head(b@, it as int, 0u8, rest);
                                            },
                                            Option::Some(lg) => {
                                                let body = spec_enc_u64(lg.len() as u64)
                                                    + spec_enc_u64_list(lg);
                                                assert(b@.skip(it as int) == seq![1u8] + (body
                                                    + rest)) by {
                                                    assert(seq![1u8] + (body + rest) =~= (seq![1u8]
                                                        + body) + rest);
                                                }
                                                lemma_byte_head(b@, it as int, 1u8, body + rest);
                                                assert(b@.skip(j as int) == spec_enc_u64(
                                                    lg.len() as u64,
                                                ) + (spec_enc_u64_list(lg) + rest)) by {
                                                    assert(spec_enc_u64(lg.len() as u64) + (
                                                    spec_enc_u64_list(lg) + rest) =~= body + rest);
                                                }
                                                assert(b@.skip(j as int).len() == b@.len() - j);
                                            },
                                        }
                                    },
                                    _ => {},
                                }
                            }
                        }
                        return None;
                    },
                };
                match dec_u64_list(b, j1, n) {
                    Some((l, j2)) => {
                        proof {
                            assert(b@.subrange(i as int, j2 as int) =~= seq![TAG_OPT_U64_LIST] + (
                            seq![1u8] + (b@.subrange(j as int, j1 as int) + b@.subrange(
                                j1 as int,
                                j2 as int,
                            ))));
                            assert(spec_enc_field(Field::OptU64List(Some(l)).v()) =~= seq![
                                TAG_OPT_U64_LIST,
                            ] + (seq![1u8] + (spec_enc_u64(l.deep_view().len() as u64)
                                + spec_enc_u64_list(l.deep_view()))));
                        }
                        Some((Field::OptU64List(Some(l)), j2))
                    },
                    None => {
                        proof {
                            assert forall|g: FieldV, rest: Seq<u8>|
                                #![trigger spec_enc_field(g).add(rest)]
                                field_bounded(g) && b@.skip(i as int) == spec_enc_field(g)
                                    + rest implies false by {
                                lemma_field_head(b@, i as int, g, rest);
                                match g {
                                    FieldV::OptU64List(og) => {
                                        match og {
                                            Option::None => {
                                                lemma_byte_head(b@, it as int, 0u8, rest);
                                            },
                                            Option::Some(lg) => {
                                                let body = spec_enc_u64(lg.len() as u64)
                                                    + spec_enc_u64_list(lg);
                                                assert(b@.skip(it as int) == seq![1u8] + (body
                                                    + rest)) by {
                                                    assert(seq![1u8] + (body + rest) =~= (seq![1u8]
                                                        + body) + rest);
                                                }
                                                lemma_byte_head(b@, it as int, 1u8, body + rest);
                                                assert(b@.skip(j as int) == spec_enc_u64(
                                                    lg.len() as u64,
                                                ) + (spec_enc_u64_list(lg) + rest)) by {
                                                    assert(spec_enc_u64(lg.len() as u64) + (
                                                    spec_enc_u64_list(lg) + rest) =~= body + rest);
                                                }
                                                lemma_u64_head(b@, j as int, lg.len() as u64, n,
                                                    j1 as int, spec_enc_u64_list(lg) + rest);
                                                assert(spec_enc_u64_list(lg).add(rest) == b@.skip(
                                                    j1 as int,
                                                ));
                                            },
                                        }
                                    },
                                    _ => {},
                                }
                            }
                        }
                        return None;
                    },
                }
            },
            _ => {
                proof {
                    assert forall|g: FieldV, rest: Seq<u8>| #![trigger spec_enc_field(g).add(rest)]
                        field_bounded(g) && b@.skip(i as int) == spec_enc_field(g)
                            + rest implies false by {
                        lemma_field_head(b@, i as int, g, rest);
                        match g {
                            FieldV::OptU64List(og) => {
                                match og {
                                    Option::None => {
                                        lemma_byte_head(b@, it as int, 0u8, rest);
                                    },
                                    Option::Some(lg) => {
                                        let body = spec_enc_u64(lg.len() as u64)
                                            + spec_enc_u64_list(lg);
                                        assert(b@.skip(it as int) == seq![1u8] + (body + rest)) by {
                                            assert(seq![1u8] + (body + rest) =~= (seq![1u8] + body)
                                                + rest);
                                        }
                                        lemma_byte_head(b@, it as int, 1u8, body + rest);
                                    },
                                }
                            },
                            _ => {},
                        }
                    }
                }
                None
            },
        }
    } else if tag == TAG_BYTES_LIST {
        let (n, j) = match dec_u64(b, it) {
            Some(x) => x,
            None => {
                proof {
                    assert forall|g: FieldV, rest: Seq<u8>| #![trigger spec_enc_field(g).add(rest)]
                        field_bounded(g) && b@.skip(i as int) == spec_enc_field(g)
                            + rest implies false by {
                        lemma_auto_spec_u64_to_from_le_bytes();
                        lemma_field_head(b@, i as int, g, rest);
                        match g {
                            FieldV::BytesList(lg) => {
                                assert(b@.skip(it as int) == spec_enc_u64(lg.len() as u64) + (
                                spec_enc_bytes_list(lg) + rest)) by {
                                    assert(spec_enc_u64(lg.len() as u64) + (spec_enc_bytes_list(lg)
                                        + rest) =~= (spec_enc_u64(lg.len() as u64)
                                        + spec_enc_bytes_list(lg)) + rest);
                                }
                                assert(b@.skip(it as int).len() == b@.len() - it);
                            },
                            _ => {},
                        }
                    }
                }
                return None;
            },
        };
        match dec_bytes_list(b, j, n) {
            Some((l, j2)) => {
                proof {
                    assert(b@.subrange(i as int, j2 as int) =~= seq![TAG_BYTES_LIST] + (
                    b@.subrange(it as int, j as int) + b@.subrange(j as int, j2 as int)));
                    assert(spec_enc_field(Field::BytesList(l).v()) =~= seq![TAG_BYTES_LIST] + (
                    spec_enc_u64(l.deep_view().len() as u64) + spec_enc_bytes_list(l.deep_view())));
                }
                Some((Field::BytesList(l), j2))
            },
            None => {
                proof {
                    assert forall|g: FieldV, rest: Seq<u8>| #![trigger spec_enc_field(g).add(rest)]
                        field_bounded(g) && b@.skip(i as int) == spec_enc_field(g)
                            + rest implies false by {
                        lemma_field_head(b@, i as int, g, rest);
                        match g {
                            FieldV::BytesList(lg) => {
                                assert(b@.skip(it as int) == spec_enc_u64(lg.len() as u64) + (
                                spec_enc_bytes_list(lg) + rest)) by {
                                    assert(spec_enc_u64(lg.len() as u64) + (spec_enc_bytes_list(lg)
                                        + rest) =~= (spec_enc_u64(lg.len() as u64)
                                        + spec_enc_bytes_list(lg)) + rest);
                                }
                                lemma_u64_head(b@, it as int, lg.len() as u64, n, j as int,
                                    spec_enc_bytes_list(lg) + rest);
                                assert(spec_enc_bytes_list(lg).add(rest) == b@.skip(j as int));
                            },
                            _ => {},
                        }
                    }
                }
                None
            },
        }
    } else {
        proof {
            assert forall|g: FieldV, rest: Seq<u8>| #![trigger spec_enc_field(g).add(rest)]
                field_bounded(g) && b@.skip(i as int) == spec_enc_field(g) + rest implies false by {
                lemma_field_head(b@, i as int, g, rest);
            }
        }
        None
    }
}

proof fn lemma_enc_fields_decompose(gs: Seq<FieldV>, k: int)
    requires
        0 <= k < gs.len(),
    ensures
        spec_enc_fields(gs.skip(k)) == spec_enc_field(gs[k]) + spec_enc_fields(gs.skip(k + 1)),
{
    assert(gs.skip(k)[0] == gs[k]);
    assert(gs.skip(k).drop_first() =~= gs.skip(k + 1));
}

/// Decodes a whole buffer as a field list.  Decoding is sound (what comes
/// back re-encodes to exactly the input) and complete (every bounded field
/// list whose encoding is the input comes back, and nothing else can).
pub fn dec_fields(b: &Vec<u8>) -> (r: Option<Vec<Field>>)
    ensures
        r matches Some(fs) ==> b@ == spec_enc_fields(views_of(fs@)) && fields_bounded(
            views_of(fs@),
        ),
        forall|gs: Seq<FieldV>| #[trigger]
            spec_enc_fields(gs) == b@ && fields_bounded(gs) ==> (r matches Some(fs) && views_of(
                fs@,
            ) == gs),
{
    let mut acc: Vec<Field> = Vec::new();
    let mut pos: usize = 0;
    proof {
        assert(views_of(acc@) =~= Seq::<FieldV>::empty());
        assert(b@.subrange(0, 0) =~= spec_enc_fields(views_of(acc@)));
        assert forall|gs: Seq<FieldV>| #[trigger]
            spec_enc_fields(gs) == b@ && fields_bounded(gs) implies views_of(acc@).len()
            <= gs.len() && views_of(acc@) == gs.take(views_of(acc@).len() as int) && b@.skip(0)
            == spec_enc_fields(gs.skip(views_of(acc@).len() as int)) by {
            assert(gs.take(0int) =~= views_of(acc@));
            assert(gs.skip(0int) =~= gs);
            assert(b@.skip(0) =~= b@);
        }
    }
    while pos < b.len()
        invariant
            pos <= b@.len(),
            views_of(acc@).len() == acc@.len(),
            b@.subrange(0, pos as int) == spec_enc_fields(views_of(acc@)),
            fields_bounded(views_of(acc@)),
            forall|gs: Seq<FieldV>| #[trigger]
                spec_enc_fields(gs) == b@ && fields_bounded(gs) ==> acc@.len() <= gs.len()
                    && views_of(acc@) == gs.take(acc@.len() as int) && b@.skip(pos as int)
                    == spec_enc_fields(gs.skip(acc@.len() as int)),
        decreases b@.len() - pos,
    {
        let ghost old_acc = acc;
        let ghost old_pos = pos;
        match dec_field(b, pos) {
            Some((f, j)) => {
                acc.push(f);
                proof {
                    assert(views_of(acc@) =~= views_of(old_acc@).push(f.v()));
                    lemma_enc_fields_push(views_of(old_acc@), f.v());
                    assert(b@.subrange(0, j as int) =~= b@.subrange(0, old_pos as int)
                        + b@.subrange(old_pos as int, j as int));
                    assert forall|gs: Seq<FieldV>| #[trigger]
                        spec_enc_fields(gs) == b@ && fields_bounded(gs) implies acc@.len()
                        <= gs.len() && views_of(acc@) == gs.take(acc@.len() as int) && b@.skip(
                        j as int,
                    ) == spec_enc_fields(gs.skip(acc@.len() as int)) by {
                        let k = old_acc@.len() as int;
                        assert(b@.skip(old_pos as int) == spec_enc_fields(gs.skip(k)));
                        if gs.len() <= k {
                            assert(gs.skip(k) =~= Seq::<FieldV>::empty());
                            assert(spec_enc_fields(gs.skip(k)) == Seq::<u8>::empty());
                            assert(b@.skip(old_pos as int).len() == b@.len() - old_pos);
                        }
                        assert(k < gs.len());
                        lemma_enc_fields_decompose(gs, k);
                        assert(b@.skip(old_pos as int) == spec_enc_field(gs[k]) + spec_enc_fields(
                            gs.skip(k + 1),
                        ));
                        lemma_skip_split(b@, old_pos as int, j as int);
                        lemma_enc_field_prefix(f.v(), gs[k], b@.skip(j as int), spec_enc_fields(
                            gs.skip(k + 1),
                        ));
                        assert(gs.take(k + 1) =~= gs.take(k).push(gs[k]));
                    }
                }
                pos = j;
            },
            None => {
                proof {
                    assert forall|gs: Seq<FieldV>| #[trigger]
                        spec_enc_fields(gs) == b@ && fields_bounded(gs) implies false by {
                        let k = acc@.len() as int;
                        assert(b@.skip(pos as int) == spec_enc_fields(gs.skip(k)));
                        if gs.len() <= k {
                            assert(gs.skip(k) =~= Seq::<FieldV>::empty());
                            assert(spec_enc_fields(gs.skip(k)) == Seq::<u8>::empty());
                            assert(b@.skip(pos as int).len() == b@.len() - pos);
                        }
                        assert(k < gs.len());
                        lemma_enc_fields_decompose(gs, k);
                        assert(spec_enc_field(gs[k]).add(spec_enc_fields(gs.skip(k + 1)))
                            == b@.skip(pos as int));
                    }
                }
                return None;
            },
        }
    }
    proof {
        assert(b@.subrange(0, b@.len() as int) =~= b@);
        assert forall|gs: Seq<FieldV>| #[trigger]
            spec_enc_fields(gs) == b@ && fields_bounded(gs) implies views_of(acc@) == gs by {
            lemma_enc_fields_inj(views_of(acc@), gs);
        }
    }
    Some(acc)
}

// ---------------------------------------------------------------------------
// Parse unambiguity: an encoding followed by arbitrary bytes determines the
// encoded value and the remaining bytes.
// ---------------------------------------------------------------------------

/// Two concatenations with equally long first parts split equally.
pub proof fn lemma_concat_split(a1: Seq<u8>, b1: Seq<u8>, a2: Seq<u8>, b2: Seq<u8>)
    requires
        a1.len() == a2.len(),
        a1 + b1 == a2 + b2,
    ensures
        a1 == a2,
        b1 == b2,
{
    assert(b1.len() == b2.len()) by {
        assert((a1 + b1).len() == a1.len() + b1.len());
        assert((a2 + b2).len() == a2.len() + b2.len());
    }
    assert forall|k: int| 0 <= k < a1.len() implies a1[k] == a2[k] by {
        assert((a1 + b1)[k] == a1[k]);
        assert((a2 + b2)[k] == a2[k]);
    }
    assert(a1 =~= a2);
    assert forall|k: int| 0 <= k < b1.len() implies b1[k] == b2[k] by {
        assert((a1 + b1)[a1.len() + k] == b1[k]);
        assert((a2 + b2)[a2.len() + k] == b2[k]);
    }
    assert(b1 =~= b2);
}

pub proof fn lemma_enc_u64_prefix(v1: u64, v2: u64, r1: Seq<u8>, r2: Seq<u8>)
    requires
        spec_enc_u64(v1) + r1 == spec_enc_u64(v2) + r2,
    ensures
        v1 == v2,
        r1 == r2,
{
    lemma_auto_spec_u64_to_from_le_bytes();
    lemma_concat_split(spec_enc_u64(v1), r1, spec_enc_u64(v2), r2);
    assert(spec_u64_from_le_bytes(spec_u64_to_le_bytes(v1))
        == spec_u64_from_le_bytes(spec_u64_to_le_bytes(v2)));
}

pub proof fn lemma_enc_str_prefix(s1: Seq<char>, s2: Seq<char>, r1: Seq<u8>, r2: Seq<u8>)
    requires
        str_bounded(s1),
        str_bounded(s2),
        spec_enc_str(s1) + r1 == spec_enc_str(s2) + r2,
    ensures
        s1 == s2,
        r1 == r2,
{
    let u1 = vstd::utf8::encode_utf8(s1);
    let u2 = vstd::utf8::encode_utf8(s2);
    assert((spec_enc_u64(u1.len() as u64) + u1) + r1 == (spec_enc_u64(u2.len() as u64) + u2)
        + r2);
    assert(spec_enc_u64(u1.len() as u64) + (u1 + r1) =~= (spec_enc_u64(u1.len() as u64) + u1)
        + r1);
    assert(spec_enc_u64(u2.len() as u64) + (u2 + r2) =~= (spec_enc_u64(u2.len() as u64) + u2)
        + r2);
    lemma_enc_u64_prefix(u1.len() as u64, u2.len() as u64, u1 + r1, u2 + r2);
    assert(u1.len() == u2.len());
    lemma_concat_split(u1, r1, u2, r2);
    vstd::utf8::encode_utf8_decode_utf8(s1);
    vstd::utf8::encode_utf8_decode_utf8(s2);
}

proof fn lemma_enc_str_list_prefix(l1: Seq<Seq<char>>, l2: Seq<Seq<char>>, r1: Seq<u8>, r2: Seq<u8>)
    requires
        l1.len() == l2.len(),
        forall|k: int| 0 <= k < l1.len() ==> str_bounded(#[trigger] l1[k]),
        forall|k: int| 0 <= k < l2.len() ==> str_bounded(#[trigger] l2[k]),
        spec_enc_str_list(l1) + r1 == spec_enc_str_list(l2) + r2,
    ensures
        l1 == l2,
        r1 == r2,
    decreases l1.len(),
{
    if l1.len() == 0 {
        assert(spec_enc_str_list(l1) == Seq::<u8>::empty());
        assert(r1 =~= spec_enc_str_list(l1) + r1);
        assert(r2 =~= spec_enc_str_list(l2) + r2);
        assert(l1 =~= l2);
    } else {
        let t1 = spec_enc_str_list(l1.drop_first());
        let t2 = spec_enc_str_list(l2.drop_first());
        assert(spec_enc_str(l1[0]) + (t1 + r1) =~= (spec_enc_str(l1[0]) + t1) + r1);
        assert(spec_enc_str(l2[0]) + (t2 + r2) =~= (spec_enc_str(l2[0]) + t2) + r2);
        lemma_enc_str_prefix(l1[0], l2[0], t1 + r1, t2 + r2);
        assert(forall|k: int|
            0 <= k < l1.drop_first().len() ==> str_bounded(#[trigger] l1.drop_first()[k]));
        assert(forall|k: int|
            0 <= k < l2.drop_first().len() ==> str_bounded(#[trigger] l2.drop_first()[k]));
        lemma_enc_str_list_prefix(l1.drop_first(), l2.drop_first(), r1, r2);
        assert forall|k: int| 0 <= k < l1.len() implies l1[k] == l2[k] by {
            if k > 0 {
                assert(l1.drop_first()[k - 1] == l2.drop_first()[k - 1]);
            }
        }
        assert(l1 =~= l2);
    }
}

proof fn lemma_enc_u64_list_prefix(l1: Seq<u64>, l2: Seq<u64>, r1: Seq<u8>, r2: Seq<u8>)
    requires
        l1.len() == l2.len(),
        spec_enc_u64_list(l1) + r1 == spec_enc_u64_list(l2) + r2,
    ensures
        l1 == l2,
        r1 == r2,
    decreases l1.len(),
{
    if l1.len() == 0 {
        assert(r1 =~= spec_enc_u64_list(l1) + r1);
        assert(r2 =~= spec_enc_u64_list(l2) + r2);
        assert(l1 =~= l2);
    } else {
        let t1 = spec_enc_u64_list(l1.drop_first());
        let t2 = spec_enc_u64_list(l2.drop_first());
        assert(spec_enc_u64(l1[0]) + (t1 + r1) =~= (spec_enc_u64(l1[0]) + t1) + r1);
        assert(spec_enc_u64(l2[0]) + (t2 + r2) =~= (spec_enc_u64(l2[0]) + t2) + r2);
        lemma_enc_u64_prefix(l1[0], l2[0], t1 + r1, t2 + r2);
        lemma_enc_u64_list_prefix(l1.drop_first(), l2.drop_first(), r1, r2);
        assert forall|k: int| 0 <= k < l1.len() implies l1[k] == l2[k] by {
            if k > 0 {
                assert(l1.drop_first()[k - 1] == l2.drop_first()[k - 1]);
            }
        }
        assert(l1 =~= l2);
    }
}

proof fn lemma_enc_bytes_list_prefix(l1: Seq<Seq<u8>>, l2: Seq<Seq<u8>>, r1: Seq<u8>, r2: Seq<u8>)
    requires
        l1.len() == l2.len(),
        forall|k: int| 0 <= k < l1.len() ==> (#[trigger] l1[k]).len() < len_limit(),
        forall|k: int| 0 <= k < l2.len() ==> (#[trigger] l2[k]).len() < len_limit(),
        spec_enc_bytes_list(l1) + r1 == spec_enc_bytes_list(l2) + r2,
    ensures
        l1 == l2,
        r1 == r2,
    decreases l1.len(),
{
    if l1.len() == 0 {
        assert(r1 =~= spec_enc_bytes_list(l1) + r1);
        assert(r2 =~= spec_enc_bytes_list(l2) + r2);
        assert(l1 =~= l2);
    } else {
        let t1 = spec_enc_bytes_list(l1.drop_first());
        let t2 = spec_enc_bytes_list(l2.drop_first());
        let n1 = spec_enc_u64(l1[0].len() as u64);
        let n2 = spec_enc_u64(l2[0].len() as u64);
        assert(n1 + (l1[0] + (t1 + r1)) =~= (n1 + l1[0] + t1) + r1);
        assert(n2 + (l2[0] + (t2 + r2)) =~= (n2 + l2[0] + t2) + r2);
        lemma_enc_u64_prefix(l1[0].len() as u64, l2[0].len() as u64, l1[0] + (t1 + r1), l2[0] + (t2
            + r2));
        assert(l1[0].len() == l2[0].len());
        lemma_concat_split(l1[0], t1 + r1, l2[0], t2 + r2);
        lemma_enc_bytes_list_prefix(l1.drop_first(), l2.drop_first(), r1, r2);
        assert forall|k: int| 0 <= k < l1.len() implies l1[k] == l2[k] by {
            if k > 0 {
                assert(l1.drop_first()[k - 1] == l2.drop_first()[k - 1]);
            }
        }
        assert(l1 =~= l2);
    }
}

/// An encoded field followed by arbitrary bytes determines the field and the
/// remaining bytes.
pub proof fn lemma_enc_field_prefix(f1: FieldV, f2: FieldV, r1: Seq<u8>, r2: Seq<u8>)
    requires
        field_bounded(f1),
        field_bounded(f2),
        spec_enc_field(f1) + r1 == spec_enc_field(f2) + r2,
    ensures
        f1 == f2,
        r1 == r2,
{
    let p1 = spec_enc_payload(f1);
    let p2 = spec_enc_payload(f2);
    assert(seq![field_tag(f1)] + (p1 + r1) =~= spec_enc_field(f1) + r1);
    assert(seq![field_tag(f2)] + (p2 + r2) =~= spec_enc_field(f2) + r2);
    lemma_concat_split(seq![field_tag(f1)], p1 + r1, seq![field_tag(f2)], p2 + r2);
    assert(field_tag(f1) == field_tag(f2)) by {
        assert(seq![field_tag(f1)][0] == seq![field_tag(f2)][0]);
    }
    assert(p1 + r1 == p2 + r2);
    match (f1, f2) {
        (FieldV::U64(v1), FieldV::U64(v2)) => {
            lemma_enc_u64_prefix(v1, v2, r1, r2);
        },
        (FieldV::B(x1), FieldV::B(x2)) => {
            let c1 = if x1 { 1u8 } else { 0u8 };
            let c2 = if x2 { 1u8 } else { 0u8 };
            lemma_concat_split(seq![c1], r1, seq![c2], r2);
            assert(seq![c1][0] == seq![c2][0]);
        },
        (FieldV::S(s1), FieldV::S(s2)) => {
            lemma_enc_str_prefix(s1, s2, r1, r2);
        },
        (FieldV::OptS(o1), FieldV::OptS(o2)) => {
            lemma_opt_str_prefix(o1, o2, r1, r2);
        },
        (FieldV::SList(l1), FieldV::SList(l2)) => {
            lemma_counted_str_list_prefix(l1, l2, r1, r2);
        },
        (FieldV::OptSList(o1), FieldV::OptSList(o2)) => {
            match (o1, o2) {
                (Option::None, Option::None) => {
                    lemma_concat_split(seq![0u8], r1, seq![0u8], r2);
                },
                (Option::None, Option::Some(l2)) => {
                    let body2 = spec_enc_u64(l2.len() as u64) + spec_enc_str_list(l2);
                    assert(seq![0u8] + r1 == seq![1u8] + (body2 + r2)) by {
                        assert(seq![1u8] + (body2 + r2) =~= (seq![1u8] + body2) + r2);
                    }
                    lemma_concat_split(seq![0u8], r1, seq![1u8], body2 + r2);
                    assert(seq![0u8][0] == seq![1u8][0]);
                },
                (Option::Some(l1), Option::None) => {
                    let body1 = spec_enc_u64(l1.len() as u64) + spec_enc_str_list(l1);
                    assert(seq![1u8] + (body1 + r1) == seq![0u8] + r2) by {
                        assert(seq![1u8] + (body1 + r1) =~= (seq![1u8] + body1) + r1);
                    }
                    lemma_concat_split(seq![1u8], body1 + r1, seq![0u8], r2);
                    assert(seq![1u8][0] == seq![0u8][0]);
                },
                (Option::Some(l1), Option::Some(l2)) => {
                    let body1 = spec_enc_u64(l1.len() as u64) + spec_enc_str_list(l1);
                    let body2 = spec_enc_u64(l2.len() as u64) + spec_enc_str_list(l2);
                    assert(seq![1u8] + (body1 + r1) =~= p1 + r1);
                    assert(seq![1u8] + (body2 + r2) =~= p2 + r2);
                    lemma_concat_split(seq![1u8], body1 + r1, seq![1u8], body2 + r2);
                    lemma_counted_str_list_prefix(l1, l2, r1, r2);
                },
            }
        },
        (FieldV::OptU64List(o1), FieldV::OptU64List(o2)) => {
            match (o1, o2) {
                (Option::None, Option::None) => {
                    lemma_concat_split(seq![0u8], r1, seq![0u8], r2);
                },
                (Option::None, Option::Some(l2)) => {
                    let body2 = spec_enc_u64(l2.len() as u64) + spec_enc_u64_list(l2);
                    assert(seq![0u8] + r1 == seq![1u8] + (body2 + r2)) by {
                        assert(seq![1u8] + (body2 + r2) =~= (seq![1u8] + body2) + r2);
                    }
                    lemma_concat_split(seq![0u8], r1, seq![1u8], body2 + r2);
                    assert(seq![0u8][0] == seq![1u8][0]);
                },
                (Option::Some(l1), Option::None) => {
                    let body1 = spec_enc_u64(l1.len() as u64) + spec_enc_u64_list(l1);
                    assert(seq![1u8] + (body1 + r1) == seq![0u8] + r2) by {
                        assert(seq![1u8] + (body1 + r1) =~= (seq![1u8] + body1) + r1);
                    }
                    lemma_concat_split(seq![1u8], body1 + r1, seq![0u8], r2);
                    assert(seq![1u8][0] == seq![0u8][0]);
                },
                (Option::Some(l1), Option::Some(l2)) => {
                    let body1 = spec_enc_u64(l1.len() as u64) + spec_enc_u64_list(l1);
                    let body2 = spec_enc_u64(l2.len() as u64) + spec_enc_u64_list(l2);
                    assert(seq![1u8] + (body1 + r1) =~= p1 + r1);
                    assert(seq![1u8] + (body2 + r2) =~= p2 + r2);
                    lemma_concat_split(seq![1u8], body1 + r1, seq![1u8], body2 + r2);
                    assert(spec_enc_u64(l1.len() as u64) + (spec_enc_u64_list(l1) + r1) =~= body1
                        + r1);
                    assert(spec_enc_u64(l2.len() as u64) + (spec_enc_u64_list(l2) + r2) =~= body2
                        + r2);
                    lemma_enc_u64_prefix(l1.len() as u64, l2.len() as u64, spec_enc_u64_list(l1)
                        + r1, spec_enc_u64_list(l2) + r2);
                    lemma_enc_u64_list_prefix(l1, l2, r1, r2);
                },
            }
        },
        (FieldV::BytesList(l1), FieldV::BytesList(l2)) => {
            assert(spec_enc_u64(l1.len() as u64) + (spec_enc_bytes_list(l1) + r1) =~= p1 + r1);
            assert(spec_enc_u64(l2.len() as u64) + (spec_enc_bytes_list(l2) + r2) =~= p2 + r2);
            lemma_enc_u64_prefix(l1.len() as u64, l2.len() as u64, spec_enc_bytes_list(l1) + r1,
                spec_enc_bytes_list(l2) + r2);
            lemma_enc_bytes_list_prefix(l1, l2, r1, r2);
        },
        _ => {
            assert(false);
        },
    }
}

proof fn lemma_opt_str_prefix(o1: Option<Seq<char>>, o2: Option<Seq<char>>, r1: Seq<u8>, r2: Seq<u8>)
    requires
        field_bounded(FieldV::OptS(o1)),
        field_bounded(FieldV::OptS(o2)),
        spec_enc_payload(FieldV::OptS(o1)) + r1 == spec_enc_payload(FieldV::OptS(o2)) + r2,
    ensures
        o1 == o2,
        r1 == r2,
{
    match (o1, o2) {
        (Option::None, Option::None) => {
            lemma_concat_split(seq![0u8], r1, seq![0u8], r2);
        },
        (Option::None, Option::Some(s2)) => {
            assert(seq![0u8] + r1 == seq![1u8] + (spec_enc_str(s2) + r2)) by {
                assert(seq![1u8] + (spec_enc_str(s2) + r2) =~= (seq![1u8] + spec_enc_str(s2))
                    + r2);
            }
            lemma_concat_split(seq![0u8], r1, seq![1u8], spec_enc_str(s2) + r2);
            assert(seq![0u8][0] == seq![1u8][0]);
        },
        (Option::Some(s1), Option::None) => {
            assert(seq![1u8] + (spec_enc_str(s1) + r1) == seq![0u8] + r2) by {
                assert(seq![1u8] + (spec_enc_str(s1) + r1) =~= (seq![1u8] + spec_enc_str(s1))
                    + r1);
            }
            lemma_concat_split(seq![1u8], spec_enc_str(s1) + r1, seq![0u8], r2);
            assert(seq![1u8][0] == seq![0u8][0]);
        },
        (Option::Some(s1), Option::Some(s2)) => {
            assert(seq![1u8] + (spec_enc_str(s1) + r1) =~= spec_enc_payload(FieldV::OptS(o1))
                + r1);
            assert(seq![1u8] + (spec_enc_str(s2) + r2) =~= spec_enc_payload(FieldV::OptS(o2))
                + r2);
            lemma_concat_split(seq![1u8], spec_enc_str(s1) + r1, seq![1u8], spec_enc_str(s2) + r2);
            lemma_enc_str_prefix(s1, s2, r1, r2);
        },
    }
}

proof fn lemma_counted_str_list_prefix(
    l1: Seq<Seq<char>>,
    l2: Seq<Seq<char>>,
    r1: Seq<u8>,
    r2: Seq<u8>,
)
    requires
        str_list_bounded(l1),
        str_list_bounded(l2),
        spec_enc_u64(l1.len() as u64) + spec_enc_str_list(l1) + r1 == spec_enc_u64(l2.len() as u64)
            + spec_enc_str_list(l2) + r2,
    ensures
        l1 == l2,
        r1 == r2,
{
    assert(spec_enc_u64(l1.len() as u64) + (spec_enc_str_list(l1) + r1) =~= spec_enc_u64(
        l1.len() as u64,
    ) + spec_enc_str_list(l1) + r1);
    assert(spec_enc_u64(l2.len() as u64) + (spec_enc_str_list(l2) + r2) =~= spec_enc_u64(
        l2.len() as u64,
    ) + spec_enc_str_list(l2) + r2);
    lemma_enc_u64_prefix(l1.len() as u64, l2.len() as u64, spec_enc_str_list(l1) + r1,
        spec_enc_str_list(l2) + r2);
    lemma_enc_str_list_prefix(l1, l2, r1, r2);
}

/// Equal encodings of bounded field lists mean equal field lists.
pub proof fn lemma_enc_fields_inj(a: Seq<FieldV>, b: Seq<FieldV>)
    requires
        fields_bounded(a),
        fields_bounded(b),
        spec_enc_fields(a) == spec_enc_fields(b),
    ensures
        a == b,
    decreases a.len(),
{
    if a.len() == 0 && b.len() == 0 {
        assert(a =~= b);
    } else if a.len() == 0 {
        assert(spec_enc_fields(b).len() >= spec_enc_field(b[0]).len());
        assert(spec_enc_field(b[0]).len() >= 1);
    } else if b.len() == 0 {
        assert(spec_enc_fields(a).len() >= spec_enc_field(a[0]).len());
        assert(spec_enc_field(a[0]).len() >= 1);
    } else {
        assert(spec_enc_field(a[0]) + spec_enc_fields(a.drop_first()) == spec_enc_field(b[0])
            + spec_enc_fields(b.drop_first()));
        lemma_enc_field_prefix(a[0], b[0], spec_enc_fields(a.drop_first()), spec_enc_fields(
            b.drop_first(),
        ));
        assert(fields_bounded(a.drop_first()));
        assert(fields_bounded(b.drop_first()));
        lemma_enc_fields_inj(a.drop_first(), b.drop_first());
        assert forall|k: int| 0 <= k < a.len() implies a[k] == b[k] by {
            if k > 0 {
                assert(a.drop_first()[k - 1] == b.drop_first()[k - 1]);
            }
        }
        assert(a =~= b);
    }
}

proof fn lemma_enc_fields_push(fs: Seq<FieldV>, x: FieldV)
    ensures
        spec_enc_fields(fs.push(x)) == spec_enc_fields(fs) + spec_enc_field(x),
    decreases fs.len(),
{
    if fs.len() == 0 {
        assert(fs.push(x).drop_first() =~= fs);
        assert(fs.push(x)[0] == x);
        assert(spec_enc_fields(fs) =~= Seq::<u8>::empty());
        assert(spec_enc_fields(fs.push(x)) =~= spec_enc_fields(fs) + spec_enc_field(x));
    } else {
        lemma_enc_fields_push(fs.drop_first(), x);
        assert(fs.push(x).drop_first() =~= fs.drop_first().push(x));
        assert(fs.push(x)[0] == fs[0]);
        assert(spec_enc_fields(fs.push(x)) =~= spec_enc_fields(fs) + spec_enc_field(x));
    }
}

} // verus!
