use vstd::prelude::*;

verus! {

broadcast use vstd::seq::axiom_seq_index_decreases, vstd::std_specs::vec::axiom_vec_index_decreases;

/// A structured value crossing the host/plugin boundary: 64-bit signed
/// integers, booleans, UTF-8 text held as bytes, and tagged sequences and
/// records composed of those.
pub enum Value {
    Int(i64),
    Bool(bool),
    Text(Vec<u8>),
    List(Vec<Value>),
    Record(Vec<(Vec<u8>, Value)>),
}

/// The mathematical model of a `Value`: the same tree over `int`, `Seq<u8>`
/// and `Seq`. Contracts speak of this model; two values are logically equal
/// exactly when their models are equal.
pub enum Val {
    Int(int),
    Bool(bool),
    Text(Seq<u8>),
    List(Seq<Val>),
    Record(Seq<(Seq<u8>, Val)>),
}

impl Value {
    /// The model of this value.
    pub open spec fn deep(self) -> Val
        decreases self, 0nat,
    {
        match self {
            Value::Int(i) => Val::Int(i as int),
            Value::Bool(b) => Val::Bool(b),
            Value::Text(t) => Val::Text(t@),
            Value::List(vs) => Val::List(deep_items(vs, 0)),
            Value::Record(fs) => Val::Record(deep_fields(fs, 0)),
        }
    }
}

pub open spec fn deep_items(vs: Vec<Value>, k: int) -> Seq<Val>
    decreases vs, (if k < vs@.len() { (vs@.len() - k) as nat } else { 0nat }),
{
    if 0 <= k < vs@.len() {
        seq![vs[k].deep()].add(deep_items(vs, k + 1))
    } else {
        Seq::empty()
    }
}

pub open spec fn deep_fields(fs: Vec<(Vec<u8>, Value)>, k: int) -> Seq<(Seq<u8>, Val)>
    decreases fs, (if k < fs@.len() { (fs@.len() - k) as nat } else { 0nat }),
{
    if 0 <= k < fs@.len() {
        seq![(fs[k].0@, fs[k].1.deep())].add(deep_fields(fs, k + 1))
    } else {
        Seq::empty()
    }
}

pub proof fn lemma_deep_items(vs: Vec<Value>, k: int)
    requires
        0 <= k <= vs@.len(),
    ensures
        deep_items(vs, k).len() == vs@.len() - k,
        forall|i: int| 0 <= i < vs@.len() - k ==> deep_items(vs, k)[i] == vs@[k + i].deep(),
    decreases vs@.len() - k,
{
    if k < vs@.len() {
        lemma_deep_items(vs, k + 1);
    }
}

pub proof fn lemma_deep_fields(fs: Vec<(Vec<u8>, Value)>, k: int)
    requires
        0 <= k <= fs@.len(),
    ensures
        deep_fields(fs, k).len() == fs@.len() - k,
        forall|i: int| 0 <= i < fs@.len() - k ==> deep_fields(fs, k)[i] == (fs@[k + i].0@, fs@[
            k + i
        ].1.deep()),
    decreases fs@.len() - k,
{
    if k < fs@.len() {
        lemma_deep_fields(fs, k + 1);
    }
}

/// The bytes of an ASCII string, character by character.
pub open spec fn lit_view(s: Seq<char>) -> Seq<u8> {
    Seq::new(s.len(), |i: int| s[i] as u8)
}

/// Turns an ASCII string literal into the byte text the boundary carries.
pub fn lit(s: &str) -> (v: Vec<u8>)
    requires
        vstd::string::is_ascii(s),
    ensures
        v@ == lit_view(s@),
{
    proof {
        broadcast use vstd::string::is_ascii_spec_bytes;

    }
    let b = s.as_bytes();
    assert(b@ =~= lit_view(s@));
    vstd::slice::slice_to_vec(b)
}

/// The characters a byte text spells in UTF-8, or nothing when the bytes
/// are not well-formed UTF-8: a function of the bytes alone.
pub uninterp spec fn utf8_chars(b: Seq<u8>) -> Option<Seq<char>>;

/// Relies on `core::str::from_utf8`: yields the characters the bytes spell
/// exactly when they are well-formed UTF-8.
#[verifier::external_body]
pub(crate) fn bytes_as_str<'a>(b: &'a Vec<u8>) -> (r: Option<&'a str>)
    ensures
        match r {
            Some(s) => utf8_chars(b@) == Some(s@),
            None => utf8_chars(b@) is None,
        },
{
    core::str::from_utf8(b.as_slice()).ok()
}

/// A copy of a text, byte for byte.
pub fn copy_bytes(a: &Vec<u8>) -> (r: Vec<u8>)
    ensures
        r@ == a@,
{
    vstd::slice::slice_to_vec(a.as_slice())
}

/// Byte-for-byte comparison of two texts.
pub fn bytes_eq(a: &Vec<u8>, b: &Vec<u8>) -> (r: bool)
    ensures
        r == (a@ == b@),
{
    if a.len() != b.len() {
        proof {
            assert(a@ != b@);
        }
        return false;
    }
    let mut i: usize = 0;
    while i < a.len()
        invariant
            0 <= i <= a.len(),
            a@.len() == b@.len(),
            forall|k: int| 0 <= k < i ==> a@[k] == b@[k],
        decreases a.len() - i,
    {
        if a[i] != b[i] {
            return false;
        }
        i += 1;
    }
    proof {
        assert(a@ =~= b@);
    }
    true
}

} // verus!
