use vstd::prelude::*;
use crate::value::{Value, Val, deep_items, deep_fields, lemma_deep_items, lemma_deep_fields};

verus! {

broadcast use vstd::seq::axiom_seq_index_decreases, vstd::std_specs::vec::axiom_vec_index_decreases;

// The wire format is a self-describing tagged text: `i<digits>;` for an
// integer (`-` before the digits of a negative one), `t` and `f` for the
// booleans, `s<len>:<bytes>` for a text, `l<count>:<items>` for a sequence,
// and `r<count>:<key value ...>` for a record whose keys are texts. Digit
// runs carry no leading zero, so every value has exactly one encoding.
pub const TAG_INT: u8 = 105;

pub const TAG_TRUE: u8 = 116;

pub const TAG_FALSE: u8 = 102;

pub const TAG_TEXT: u8 = 115;

pub const TAG_LIST: u8 = 108;

pub const TAG_RECORD: u8 = 114;

pub const DASH: u8 = 45;

pub const SEMI: u8 = 59;

pub const COLON: u8 = 58;

pub const DIGIT_ZERO: u8 = 48;

/// Decoding failure: the reason names the first malformed element.
#[derive(Debug)]
pub enum MarshalError {
    /// The input ended before the element it announced.
    Truncated,
    /// A digit run is missing, has a leading zero, or a tag byte is unknown.
    BadSyntax,
    /// An integer lies outside the 64-bit signed range.
    IntOutOfRange,
    /// Bytes remain after the first complete value.
    TrailingBytes,
}

pub open spec fn digits(n: nat) -> Seq<u8>
    decreases n,
{
    if n < 10 {
        seq![(DIGIT_ZERO + n) as u8]
    } else {
        digits(n / 10).push((DIGIT_ZERO + n % 10) as u8)
    }
}

pub open spec fn enc_text(t: Seq<u8>) -> Seq<u8> {
    seq![TAG_TEXT].add(digits(t.len())).push(COLON).add(t)
}

/// The encoding of a value model.
pub open spec fn enc(m: Val) -> Seq<u8>
    decreases m, 0nat,
{
    match m {
        Val::Int(i) => seq![TAG_INT].add(
            if i < 0 {
                seq![DASH].add(digits((-i) as nat))
            } else {
                digits(i as nat)
            },
        ).push(SEMI),
        Val::Bool(b) => if b {
            seq![TAG_TRUE]
        } else {
            seq![TAG_FALSE]
        },
        Val::Text(t) => enc_text(t),
        Val::List(ms) => seq![TAG_LIST].add(digits(ms.len())).push(COLON).add(enc_items(ms, 0)),
        Val::Record(fs) => seq![TAG_RECORD].add(digits(fs.len())).push(COLON).add(
            enc_fields(fs, 0),
        ),
    }
}

/// The concatenated encodings of the items of `ms` from position `k` on.
pub open spec fn enc_items(ms: Seq<Val>, k: int) -> Seq<u8>
    decreases ms, (if k < ms.len() { (ms.len() - k) as nat } else { 0nat }),
{
    if 0 <= k < ms.len() {
        enc(ms[k]).add(enc_items(ms, k + 1))
    } else {
        Seq::empty()
    }
}

/// The concatenated encodings of the fields of `fs` from position `k` on.
pub open spec fn enc_fields(fs: Seq<(Seq<u8>, Val)>, k: int) -> Seq<u8>
    decreases fs, (if k < fs.len() { (fs.len() - k) as nat } else { 0nat }),
{
    if 0 <= k < fs.len() {
        enc_text(fs[k].0).add(enc(fs[k].1)).add(enc_fields(fs, k + 1))
    } else {
        Seq::empty()
    }
}

/// The concatenated encodings of the first `k` items of `ms`.
pub open spec fn enc_items_upto(ms: Seq<Val>, k: int) -> Seq<u8>
    decreases (if k > 0 { k as nat } else { 0nat }),
{
    if 0 < k <= ms.len() {
        enc_items_upto(ms, k - 1).add(enc(ms[k - 1]))
    } else {
        Seq::empty()
    }
}

/// The concatenated encodings of the first `k` fields of `fs`.
pub open spec fn enc_fields_upto(fs: Seq<(Seq<u8>, Val)>, k: int) -> Seq<u8>
    decreases (if k > 0 { k as nat } else { 0nat }),
{
    if 0 < k <= fs.len() {
        enc_fields_upto(fs, k - 1).add(enc_text(fs[k - 1].0)).add(enc(fs[k - 1].1))
    } else {
        Seq::empty()
    }
}

proof fn lemma_items_upto_all(ms: Seq<Val>, k: int)
    requires
        0 <= k <= ms.len(),
    ensures
        enc_items_upto(ms, k).add(enc_items(ms, k)) == enc_items(ms, 0),
    decreases k,
{
    if k == 0 {
        assert(enc_items_upto(ms, 0).add(enc_items(ms, 0)) =~= enc_items(ms, 0));
    } else {
        lemma_items_upto_all(ms, k - 1);
        assert(enc_items_upto(ms, k).add(enc_items(ms, k)) =~= enc_items_upto(ms, k - 1).add(
            enc_items(ms, k - 1),
        ));
    }
}

proof fn lemma_fields_upto_all(fs: Seq<(Seq<u8>, Val)>, k: int)
    requires
        0 <= k <= fs.len(),
    ensures
        enc_fields_upto(fs, k).add(enc_fields(fs, k)) == enc_fields(fs, 0),
    decreases k,
{
    if k == 0 {
        assert(enc_fields_upto(fs, 0).add(enc_fields(fs, 0)) =~= enc_fields(fs, 0));
    } else {
        lemma_fields_upto_all(fs, k - 1);
        assert(enc_fields_upto(fs, k).add(enc_fields(fs, k)) =~= enc_fields_upto(fs, k - 1).add(
            enc_fields(fs, k - 1),
        ));
    }
}

/// Appends the decimal digits of `n` to `out`.
fn push_digits(n: u64, out: &mut Vec<u8>)
    ensures
        final(out)@ == old(out)@.add(digits(n as nat)),
    decreases n,
{
    if n < 10 {
        out.push(DIGIT_ZERO + (n as u8));
    } else {
        push_digits(n / 10, out);
        out.push(DIGIT_ZERO + ((n % 10) as u8));
    }
}

/// Appends the encoding of `v` to `out`.
#[verifier::loop_isolation(false)]
#[verifier::rlimit(100)]
fn encode_into(v: &Value, out: &mut Vec<u8>)
    ensures
        final(out)@ == old(out)@.add(enc(v.deep())),
    decreases v, 0nat,
{
    match v {
        Value::Int(i) => {
            let iv: i64 = *i;
            out.push(TAG_INT);
            if iv < 0 {
                out.push(DASH);
                let mag: u64 = if iv == i64::MIN {
                    9223372036854775808u64
                } else {
                    (-iv) as u64
                };
                push_digits(mag, out);
            } else {
                push_digits(iv as u64, out);
            }
            out.push(SEMI);
            assert(out@ =~= old(out)@.add(enc(v.deep())));
        },
        Value::Bool(b) => {
            if *b {
                out.push(TAG_TRUE);
            } else {
                out.push(TAG_FALSE);
            }
            assert(out@ =~= old(out)@.add(enc(v.deep())));
        },
        Value::Text(t) => {
            out.push(TAG_TEXT);
            push_digits(t.len() as u64, out);
            out.push(COLON);
            let ghost mid = out@;
            let mut j: usize = 0;
            while j < t.len()
                invariant
                    0 <= j <= t@.len(),
                    out@ == mid.add(t@.subrange(0, j as int)),
                decreases t@.len() - j,
            {
                out.push(t[j]);
                assert(out@ =~= mid.add(t@.subrange(0, j + 1 as int)));
                j += 1;
            }
            assert(t@.subrange(0, t@.len() as int) =~= t@);
            assert(out@ =~= old(out)@.add(enc(v.deep())));
        },
        Value::List(vs) => {
            out.push(TAG_LIST);
            push_digits(vs.len() as u64, out);
            out.push(COLON);
            let ghost ms = deep_items(*vs, 0);
            proof {
                lemma_deep_items(*vs, 0);
            }
            let ghost mid = out@;
            let mut j: usize = 0;
            while j < vs.len()
                invariant
                    0 <= j <= vs@.len(),
                    ms == deep_items(*vs, 0),
                    ms.len() == vs@.len(),
                    forall|i: int| 0 <= i < vs@.len() ==> ms[i] == vs@[i].deep(),
                    out@ == mid.add(enc_items_upto(ms, j as int)),
                decreases vs@.len() - j,
            {
                encode_into(&vs[j], out);
                assert(out@ =~= mid.add(enc_items_upto(ms, j + 1 as int)));
                j += 1;
            }
            proof {
                lemma_items_upto_all(ms, ms.len() as int);
                assert(enc_items_upto(ms, ms.len() as int).add(enc_items(ms, ms.len() as int))
                    =~= enc_items_upto(ms, ms.len() as int));
            }
            assert(out@ =~= old(out)@.add(enc(v.deep())));
        },
        Value::Record(fs) => {
            out.push(TAG_RECORD);
            push_digits(fs.len() as u64, out);
            out.push(COLON);
            let ghost gs = deep_fields(*fs, 0);
            proof {
                lemma_deep_fields(*fs, 0);
            }
            let ghost mid = out@;
            let mut j: usize = 0;
            while j < fs.len()
                invariant
                    0 <= j <= fs@.len(),
                    gs == deep_fields(*fs, 0),
                    gs.len() == fs@.len(),
                    forall|i: int|
                        0 <= i < fs@.len() ==> gs[i] == (fs@[i].0@, fs@[i].1.deep()),
                    out@ == mid.add(enc_fields_upto(gs, j as int)),
                decreases fs@.len() - j,
            {
                let ghost before = out@;
                out.push(TAG_TEXT);
                push_digits(fs[j].0.len() as u64, out);
                out.push(COLON);
                let ghost mid2 = out@;
                let key_len = fs[j].0.len();
                let mut p: usize = 0;
                while p < key_len
                    invariant
                        0 <= p <= key_len,
                        key_len == fs@[j as int].0@.len(),
                        0 <= j < fs@.len(),
                        out@ == mid2.add(fs@[j as int].0@.subrange(0, p as int)),
                    decreases key_len - p,
                {
                    let b = fs[j].0[p];
                    out.push(b);
                    assert(out@ =~= mid2.add(fs@[j as int].0@.subrange(0, p + 1 as int)));
                    p += 1;
                }
                assert(fs@[j as int].0@.subrange(0, key_len as int) =~= fs@[j as int].0@);
                assert(out@ =~= before.add(enc_text(gs[j as int].0)));
                encode_into(&fs[j].1, out);
                assert(out@ =~= mid.add(enc_fields_upto(gs, j + 1 as int)));
                j += 1;
            }
            proof {
                lemma_fields_upto_all(gs, gs.len() as int);
                assert(enc_fields_upto(gs, gs.len() as int).add(enc_fields(gs, gs.len() as int))
                    =~= enc_fields_upto(gs, gs.len() as int));
            }
            assert(out@ =~= old(out)@.add(enc(v.deep())));
        },
    }
}

/// Encodes a value for the boundary. Every supported value has a
/// representation, so encoding never fails.
pub fn encode(v: &Value) -> (out: Vec<u8>)
    ensures
        out@ == enc(v.deep()),
{
    let mut out: Vec<u8> = Vec::new();
    encode_into(v, &mut out);
    proof {
        assert(out@ =~= enc(v.deep()));
    }
    out
}


// ---------------------------------------------------------------------------
// Decoding
// ---------------------------------------------------------------------------

pub open spec fn is_digit(c: u8) -> bool {
    DIGIT_ZERO <= c <= 57
}

pub open spec fn rem(s: Seq<u8>, i: int) -> nat {
    if 0 <= i < s.len() {
        (s.len() - i) as nat
    } else {
        0nat
    }
}

/// The first position at or after `i` that does not hold a digit.
pub open spec fn run_end(s: Seq<u8>, i: int) -> int
    decreases rem(s, i),
{
    if 0 <= i < s.len() && is_digit(s[i]) {
        run_end(s, i + 1)
    } else {
        i
    }
}

/// The number written by the digits of `s` between `i` and `e`.
pub open spec fn num_val(s: Seq<u8>, i: int, e: int) -> nat
    decreases (if e > i { (e - i) as nat } else { 0nat }),
{
    if i < e {
        num_val(s, i, e - 1) * 10 + (s[e - 1] - DIGIT_ZERO) as nat
    } else {
        0nat
    }
}

/// Reads a digit run: at least one digit, no leading zero.
pub open spec fn dec_num(s: Seq<u8>, i: int) -> Option<(nat, int)> {
    let e = run_end(s, i);
    if e == i {
        None
    } else if s[i] == DIGIT_ZERO && e > i + 1 {
        None
    } else {
        Some((num_val(s, i, e), e))
    }
}

/// Reads one text element.
pub open spec fn dec_text(s: Seq<u8>, i: int) -> Option<(Seq<u8>, int)> {
    if 0 <= i < s.len() && s[i] == TAG_TEXT {
        match dec_num(s, i + 1) {
            Some((n, j)) => if j < s.len() && s[j] == COLON && j + 1 + n <= s.len() {
                Some((s.subrange(j + 1, j + 1 + n), j + 1 + n))
            } else {
                None
            },
            None => None,
        }
    } else {
        None
    }
}

/// Reads one value starting at `i`; yields its model and the position after.
pub open spec fn dec_val(s: Seq<u8>, i: int) -> Option<(Val, int)>
    decreases rem(s, i), 0nat,
{
    if !(0 <= i < s.len()) {
        None
    } else if s[i] == TAG_TRUE {
        Some((Val::Bool(true), i + 1))
    } else if s[i] == TAG_FALSE {
        Some((Val::Bool(false), i + 1))
    } else if s[i] == TAG_INT {
        let neg = i + 1 < s.len() && s[i + 1] == DASH;
        let start = if neg {
            i + 2
        } else {
            i + 1
        };
        match dec_num(s, start) {
            Some((n, j)) => if j < s.len() && s[j] == SEMI {
                let v: int = if neg {
                    -(n as int)
                } else {
                    n as int
                };
                if i64::MIN <= v <= i64::MAX {
                    Some((Val::Int(v), j + 1))
                } else {
                    None
                }
            } else {
                None
            },
            None => None,
        }
    } else if s[i] == TAG_TEXT {
        match dec_text(s, i) {
            Some((t, j)) => Some((Val::Text(t), j)),
            None => None,
        }
    } else if s[i] == TAG_LIST {
        match dec_num(s, i + 1) {
            Some((n, j)) => if i + 1 < j && j < s.len() && s[j] == COLON {
                match dec_items(s, j + 1, n) {
                    Some((ms, j2)) => Some((Val::List(ms), j2)),
                    None => None,
                }
            } else {
                None
            },
            None => None,
        }
    } else if s[i] == TAG_RECORD {
        match dec_num(s, i + 1) {
            Some((n, j)) => if i + 1 < j && j < s.len() && s[j] == COLON {
                match dec_fields(s, j + 1, n) {
                    Some((fs, j2)) => Some((Val::Record(fs), j2)),
                    None => None,
                }
            } else {
                None
            },
            None => None,
        }
    } else {
        None
    }
}

/// Reads `n` values in a row.
pub open spec fn dec_items(s: Seq<u8>, i: int, n: nat) -> Option<(Seq<Val>, int)>
    decreases rem(s, i), n,
{
    if n == 0 {
        Some((Seq::empty(), i))
    } else {
        match dec_val(s, i) {
            Some((m, j)) => if 0 <= i && i < j && j <= s.len() {
                match dec_items(s, j, (n - 1) as nat) {
                    Some((ms, j2)) => Some((seq![m].add(ms), j2)),
                    None => None,
                }
            } else {
                None
            },
            None => None,
        }
    }
}

/// Reads `n` key/value pairs in a row.
pub open spec fn dec_fields(s: Seq<u8>, i: int, n: nat) -> Option<(Seq<(Seq<u8>, Val)>, int)>
    decreases rem(s, i), n,
{
    if n == 0 {
        Some((Seq::empty(), i))
    } else {
        match dec_text(s, i) {
            Some((t, j)) => if 0 <= i && i < j && j <= s.len() {
                match dec_val(s, j) {
                    Some((m, j2)) => if j < j2 && j2 <= s.len() {
                        match dec_fields(s, j2, (n - 1) as nat) {
                            Some((fs, j3)) => Some((seq![(t, m)].add(fs), j3)),
                            None => None,
                        }
                    } else {
                        None
                    },
                    None => None,
                }
            } else {
                None
            },
            None => None,
        }
    }
}

/// What a whole boundary message means: one value and nothing after it.
pub open spec fn dec(s: Seq<u8>) -> Option<Val> {
    match dec_val(s, 0) {
        Some((m, j)) => if j == s.len() {
            Some(m)
        } else {
            None
        },
        None => None,
    }
}

/// A model the boundary supports: every integer in it fits 64 signed bits.
pub open spec fn wf(m: Val) -> bool
    decreases m, 0nat,
{
    match m {
        Val::Int(i) => i64::MIN <= i <= i64::MAX,
        Val::Bool(_) => true,
        Val::Text(_) => true,
        Val::List(ms) => wf_items(ms, 0),
        Val::Record(fs) => wf_fields(fs, 0),
    }
}

pub open spec fn wf_items(ms: Seq<Val>, k: int) -> bool
    decreases ms, (if k < ms.len() { (ms.len() - k) as nat } else { 0nat }),
{
    if 0 <= k < ms.len() {
        wf(ms[k]) && wf_items(ms, k + 1)
    } else {
        true
    }
}

pub open spec fn wf_fields(fs: Seq<(Seq<u8>, Val)>, k: int) -> bool
    decreases fs, (if k < fs.len() { (fs.len() - k) as nat } else { 0nat }),
{
    if 0 <= k < fs.len() {
        wf(fs[k].1) && wf_fields(fs, k + 1)
    } else {
        true
    }
}

/// The model of every boundary value is supported.
pub proof fn lemma_deep_wf(v: Value)
    ensures
        wf(v.deep()),
    decreases v, 1nat,
{
    match v {
        Value::Int(_) => {},
        Value::Bool(_) => {},
        Value::Text(_) => {},
        Value::List(vs) => {
            lemma_deep_wf_items(vs, 0);
        },
        Value::Record(fs) => {
            lemma_deep_wf_fields(fs, 0);
        },
    }
}

proof fn lemma_deep_wf_items(vs: Vec<Value>, k: int)
    requires
        0 <= k <= vs@.len(),
    ensures
        wf_items(deep_items(vs, k), 0),
    decreases vs, (if k < vs@.len() { (vs@.len() - k) as nat } else { 0nat }), 0nat,
{
    if k < vs@.len() {
        lemma_deep_wf(vs@[k]);
        lemma_deep_wf_items(vs, k + 1);
        lemma_wf_items_shift(vs[k].deep(), deep_items(vs, k + 1));
    }
}

proof fn lemma_deep_wf_fields(fs: Vec<(Vec<u8>, Value)>, k: int)
    requires
        0 <= k <= fs@.len(),
    ensures
        wf_fields(deep_fields(fs, k), 0),
    decreases fs, (if k < fs@.len() { (fs@.len() - k) as nat } else { 0nat }), 0nat,
{
    if k < fs@.len() {
        lemma_deep_wf(fs@[k].1);
        lemma_deep_wf_fields(fs, k + 1);
        lemma_wf_fields_shift((fs[k].0@, fs[k].1.deep()), deep_fields(fs, k + 1));
    }
}

proof fn lemma_wf_items_shift(m: Val, ms: Seq<Val>)
    requires
        wf(m),
        wf_items(ms, 0),
    ensures
        wf_items(seq![m].add(ms), 0),
{
    lemma_wf_items_shift_rec(m, ms, 0);
    let both = seq![m].add(ms);
    assert(both[0] == m);
    assert(wf_items(both, 0) == (wf(both[0]) && wf_items(both, 1)));
}

proof fn lemma_wf_items_shift_rec(m: Val, ms: Seq<Val>, k: int)
    requires
        wf(m),
        0 <= k <= ms.len(),
        wf_items(ms, k),
    ensures
        wf_items(seq![m].add(ms), k + 1),
    decreases ms.len() - k,
{
    let both = seq![m].add(ms);
    assert(both[0] == m);
    if k < ms.len() {
        assert(both[k + 1] == ms[k]);
        lemma_wf_items_shift_rec(m, ms, k + 1);
    }
}

proof fn lemma_wf_fields_shift(f: (Seq<u8>, Val), fs: Seq<(Seq<u8>, Val)>)
    requires
        wf(f.1),
        wf_fields(fs, 0),
    ensures
        wf_fields(seq![f].add(fs), 0),
{
    lemma_wf_fields_shift_rec(f, fs, 0);
    let both = seq![f].add(fs);
    assert(both[0] == f);
    assert(wf_fields(both, 0) == (wf(both[0].1) && wf_fields(both, 1)));
}

proof fn lemma_wf_fields_shift_rec(f: (Seq<u8>, Val), fs: Seq<(Seq<u8>, Val)>, k: int)
    requires
        wf(f.1),
        0 <= k <= fs.len(),
        wf_fields(fs, k),
    ensures
        wf_fields(seq![f].add(fs), k + 1),
    decreases fs.len() - k,
{
    let both = seq![f].add(fs);
    assert(both[0] == f);
    if k < fs.len() {
        assert(both[k + 1] == fs[k]);
        lemma_wf_fields_shift_rec(f, fs, k + 1);
    }
}


// ---------------------------------------------------------------------------
// Round trip: decoding an encoding yields the value back
// ---------------------------------------------------------------------------

proof fn lemma_digits_shape(n: nat)
    ensures
        digits(n).len() >= 1,
        forall|k: int| 0 <= k < digits(n).len() ==> is_digit(#[trigger] digits(n)[k]),
        (digits(n)[0] == DIGIT_ZERO) == (n == 0),
    decreases n,
{
    if n >= 10 {
        lemma_digits_shape(n / 10);
    }
}

proof fn lemma_run_end_exact(s: Seq<u8>, i: int, e: int)
    requires
        0 <= i <= e <= s.len(),
        forall|k: int| i <= k < e ==> is_digit(#[trigger] s[k]),
        e == s.len() || !is_digit(s[e]),
    ensures
        run_end(s, i) == e,
    decreases e - i,
{
    if i < e {
        lemma_run_end_exact(s, i + 1, e);
    }
}

proof fn lemma_num_val_digits(s: Seq<u8>, i: int, n: nat)
    requires
        0 <= i,
        i + digits(n).len() <= s.len(),
        s.subrange(i, i + digits(n).len()) == digits(n),
    ensures
        num_val(s, i, i + digits(n).len()) == n,
    decreases n,
{
    let l = digits(n).len() as int;
    assert(forall|k: int| 0 <= k < l ==> s[i + k] == digits(n)[k]) by {
        assert(forall|k: int| 0 <= k < l ==> #[trigger] s.subrange(i, i + l)[k] == s[i + k]);
    }
    if n < 10 {
        assert(num_val(s, i, i + 1) == num_val(s, i, i) * 10 + (s[i] - DIGIT_ZERO) as nat);
        assert(s[i] == digits(n)[0]);
    } else {
        lemma_digits_shape(n / 10);
        let l0 = digits((n / 10) as nat).len() as int;
        assert(digits(n) == digits((n / 10) as nat).push((DIGIT_ZERO + n % 10) as u8));
        assert(s.subrange(i, i + l0) =~= digits((n / 10) as nat)) by {
            assert(forall|k: int| 0 <= k < l0 ==> digits(n)[k] == digits((n / 10) as nat)[k]);
        }
        lemma_num_val_digits(s, i, n / 10);
        assert(s[i + l - 1] == digits(n)[l - 1]);
        assert(digits(n)[l - 1] == (DIGIT_ZERO + n % 10) as u8);
        assert(num_val(s, i, i + l) == num_val(s, i, i + l - 1) * 10 + (s[i + l - 1]
            - DIGIT_ZERO) as nat);
    }
}

proof fn lemma_dec_num_digits(s: Seq<u8>, i: int, n: nat)
    requires
        0 <= i,
        i + digits(n).len() <= s.len(),
        s.subrange(i, i + digits(n).len()) == digits(n),
        i + digits(n).len() == s.len() || !is_digit(s[i + digits(n).len()]),
    ensures
        dec_num(s, i) == Some((n, i + digits(n).len())),
{
    let l = digits(n).len() as int;
    lemma_digits_shape(n);
    assert(forall|k: int| 0 <= k < l ==> s[i + k] == digits(n)[k]) by {
        assert(forall|k: int| 0 <= k < l ==> #[trigger] s.subrange(i, i + l)[k] == s[i + k]);
    }
    assert forall|k: int| i <= k < i + l implies is_digit(#[trigger] s[k]) by {
        lemma_at(s, i, digits(n), k - i);
    }
    lemma_run_end_exact(s, i, i + l);
    lemma_num_val_digits(s, i, n);
    if s[i] == DIGIT_ZERO {
        assert(n == 0);
        assert(l == 1);
    }
}

proof fn lemma_at(s: Seq<u8>, i: int, e: Seq<u8>, k: int)
    requires
        0 <= i,
        i + e.len() <= s.len(),
        s.subrange(i, i + e.len() as int) == e,
        0 <= k < e.len(),
    ensures
        s[i + k] == e[k],
{
    assert(s.subrange(i, i + e.len() as int)[k] == s[i + k]);
}

proof fn lemma_subrange_split(s: Seq<u8>, i: int, a: Seq<u8>, b: Seq<u8>)
    requires
        0 <= i,
        i + a.len() + b.len() <= s.len(),
        s.subrange(i, i + a.len() + b.len()) == a.add(b),
    ensures
        s.subrange(i, i + a.len()) == a,
        s.subrange(i + a.len(), i + a.len() + b.len()) == b,
{
    let l = a.len() as int;
    let t = (a.len() + b.len()) as int;
    assert(forall|k: int| 0 <= k < t ==> s[i + k] == a.add(b)[k]) by {
        assert(forall|k: int| 0 <= k < t ==> #[trigger] s.subrange(i, i + t)[k] == s[i + k]);
    }
    assert(s.subrange(i, i + l) =~= a);
    assert forall|x: int| 0 <= x < b.len() implies s.subrange(i + l, i + t)[x] == b[x] by {
        lemma_at(s, i, a.add(b), l + x);
        assert(a.add(b)[l + x] == b[x]);
    }
    assert(s.subrange(i + l, i + t) =~= b);
}

proof fn lemma_enc_len_pos(m: Val)
    ensures
        enc(m).len() >= 1,
        enc(m)[0] == match m {
            Val::Int(_) => TAG_INT,
            Val::Bool(b) => if b { TAG_TRUE } else { TAG_FALSE },
            Val::Text(_) => TAG_TEXT,
            Val::List(_) => TAG_LIST,
            Val::Record(_) => TAG_RECORD,
        },
{
    match m {
        Val::Int(i) => {
            lemma_digits_shape(if i < 0 { (-i) as nat } else { i as nat });
        },
        Val::Bool(_) => {},
        Val::Text(t) => {
            lemma_digits_shape(t.len());
        },
        Val::List(ms) => {
            lemma_digits_shape(ms.len());
        },
        Val::Record(fs) => {
            lemma_digits_shape(fs.len());
        },
    }
}

proof fn lemma_dec_enc_text(s: Seq<u8>, i: int, t: Seq<u8>)
    requires
        0 <= i,
        i + enc_text(t).len() <= s.len(),
        s.subrange(i, i + enc_text(t).len()) == enc_text(t),
    ensures
        dec_text(s, i) == Some((t, i + enc_text(t).len())),
{
    let e = enc_text(t);
    let l = digits(t.len()).len() as int;
    lemma_digits_shape(t.len());
    assert(forall|k: int| 0 <= k < e.len() ==> s[i + k] == e[k]) by {
        assert(forall|k: int| 0 <= k < e.len() ==> #[trigger] s.subrange(i, i + e.len() as int)[k] == s[i + k]);
    }
    lemma_at(s, i, e, 0);
    assert(s[i] == TAG_TEXT);
    assert(forall|k: int| 0 <= k < l ==> e[1 + k] == digits(t.len())[k]);
    assert(s.subrange(i + 1, i + 1 + l) =~= digits(t.len()));
    lemma_at(s, i, e, 1 + l);
    assert(s[i + 1 + l] == COLON);
    assert(!is_digit(COLON));
    lemma_dec_num_digits(s, i + 1, t.len());
    assert(forall|k: int| 0 <= k < t.len() ==> e[2 + l + k] == t[k]);
    assert(s.subrange(i + l + 2, i + l + 2 + t.len()) =~= t);
    assert(dec_text(s, i) == Some((t, i + l + 2 + t.len())));
    assert(e.len() == l + 2 + t.len());
}

proof fn lemma_dec_enc(s: Seq<u8>, i: int, m: Val)
    requires
        wf(m),
        0 <= i,
        i + enc(m).len() <= s.len(),
        s.subrange(i, i + enc(m).len()) == enc(m),
    ensures
        dec_val(s, i) == Some((m, i + enc(m).len())),
    decreases m, 0nat,
{
    let e = enc(m);
    lemma_enc_len_pos(m);
    assert(forall|k: int| 0 <= k < e.len() ==> s[i + k] == e[k]) by {
        assert(forall|k: int| 0 <= k < e.len() ==> #[trigger] s.subrange(i, i + e.len() as int)[k] == s[i + k]);
    }
    lemma_at(s, i, e, 0);
    assert(s[i] == e[0]);
    match m {
        Val::Bool(b) => {},
        Val::Int(v) => {
            let mag: nat = if v < 0 { (-v) as nat } else { v as nat };
            let l = digits(mag).len() as int;
            lemma_digits_shape(mag);
            if v < 0 {
                lemma_at(s, i, e, 1);
                assert(s[i + 1] == DASH);
                assert(forall|k: int| 0 <= k < l ==> e[2 + k] == digits(mag)[k]);
                assert(s.subrange(i + 2, i + 2 + l) =~= digits(mag));
                lemma_at(s, i, e, 2 + l);
                assert(s[i + 2 + l] == SEMI);
                assert(!is_digit(SEMI));
                lemma_dec_num_digits(s, i + 2, mag);
                assert(dec_val(s, i) == Some((Val::Int(v), i + 2 + l + 1)));
                assert(e.len() == 2 + l + 1);
            } else {
                assert(forall|k: int| 0 <= k < l ==> e[1 + k] == digits(mag)[k]);
                assert(s.subrange(i + 1, i + 1 + l) =~= digits(mag));
                lemma_at(s, i, e, 1 + l);
                assert(s[i + 1 + l] == SEMI);
                assert(!is_digit(SEMI));
                lemma_dec_num_digits(s, i + 1, mag);
                lemma_at(s, i, e, 1);
                assert(s[i + 1] == digits(mag)[0]);
                assert(is_digit(s[i + 1]) && s[i + 1] != DASH);
                assert(dec_val(s, i) == Some((Val::Int(v), i + 1 + l + 1)));
                assert(e.len() == 1 + l + 1);
            }
        },
        Val::Text(t) => {
            lemma_dec_enc_text(s, i, t);
        },
        Val::List(ms) => {
            let l = digits(ms.len()).len() as int;
            lemma_digits_shape(ms.len());
            assert(forall|k: int| 0 <= k < l ==> e[1 + k] == digits(ms.len())[k]);
            assert(s.subrange(i + 1, i + 1 + l) =~= digits(ms.len()));
            lemma_at(s, i, e, 1 + l);
            assert(s[i + 1 + l] == COLON);
            assert(!is_digit(COLON));
            lemma_dec_num_digits(s, i + 1, ms.len());
            let body = enc_items(ms, 0);
            assert(forall|k: int| 0 <= k < body.len() ==> e[2 + l + k] == body[k]);
            assert(s.subrange(i + l + 2, i + l + 2 + body.len()) =~= body);
            lemma_dec_enc_items(s, i + l + 2, ms, 0);
            assert(ms.skip(0) =~= ms);
            assert(dec_val(s, i) == Some((Val::List(ms), i + l + 2 + body.len())));
            assert(e.len() == l + 2 + body.len());
        },
        Val::Record(fs) => {
            let l = digits(fs.len()).len() as int;
            lemma_digits_shape(fs.len());
            assert(forall|k: int| 0 <= k < l ==> e[1 + k] == digits(fs.len())[k]);
            assert(s.subrange(i + 1, i + 1 + l) =~= digits(fs.len()));
            lemma_at(s, i, e, 1 + l);
            assert(s[i + 1 + l] == COLON);
            assert(!is_digit(COLON));
            lemma_dec_num_digits(s, i + 1, fs.len());
            let body = enc_fields(fs, 0);
            assert(forall|k: int| 0 <= k < body.len() ==> e[2 + l + k] == body[k]);
            assert(s.subrange(i + l + 2, i + l + 2 + body.len()) =~= body);
            lemma_dec_enc_fields(s, i + l + 2, fs, 0);
            assert(fs.skip(0) =~= fs);
            assert(dec_val(s, i) == Some((Val::Record(fs), i + l + 2 + body.len())));
            assert(e.len() == l + 2 + body.len());
        },
    }
}

proof fn lemma_dec_enc_items(s: Seq<u8>, i: int, ms: Seq<Val>, k: int)
    requires
        wf_items(ms, k),
        0 <= k <= ms.len(),
        0 <= i,
        i + enc_items(ms, k).len() <= s.len(),
        s.subrange(i, i + enc_items(ms, k).len()) == enc_items(ms, k),
    ensures
        dec_items(s, i, (ms.len() - k) as nat) == Some((ms.skip(k), i + enc_items(ms, k).len())),
    decreases ms, (if k < ms.len() { (ms.len() - k) as nat } else { 0nat }), 1nat,
{
    if k == ms.len() {
        assert(ms.skip(k) =~= Seq::<Val>::empty());
    } else {
        let ea = enc(ms[k]);
        let eb = enc_items(ms, k + 1);
        lemma_enc_len_pos(ms[k]);
        lemma_subrange_split(s, i, ea, eb);
        lemma_dec_enc(s, i, ms[k]);
        lemma_dec_enc_items(s, i + ea.len(), ms, k + 1);
        assert(seq![ms[k]].add(ms.skip(k + 1)) =~= ms.skip(k));
        assert(dec_items(s, i, (ms.len() - k) as nat) == Some((ms.skip(k), i + ea.len()
            + eb.len())));
    }
}

proof fn lemma_dec_enc_fields(s: Seq<u8>, i: int, fs: Seq<(Seq<u8>, Val)>, k: int)
    requires
        wf_fields(fs, k),
        0 <= k <= fs.len(),
        0 <= i,
        i + enc_fields(fs, k).len() <= s.len(),
        s.subrange(i, i + enc_fields(fs, k).len()) == enc_fields(fs, k),
    ensures
        dec_fields(s, i, (fs.len() - k) as nat) == Some((fs.skip(k), i + enc_fields(fs, k).len())),
    decreases fs, (if k < fs.len() { (fs.len() - k) as nat } else { 0nat }), 1nat,
{
    if k == fs.len() {
        assert(fs.skip(k) =~= Seq::<(Seq<u8>, Val)>::empty());
    } else {
        let ek = enc_text(fs[k].0);
        let ev = enc(fs[k].1);
        let er = enc_fields(fs, k + 1);
        lemma_enc_len_pos(fs[k].1);
        lemma_digits_shape(fs[k].0.len());
        assert(enc_fields(fs, k) == ek.add(ev).add(er));
        assert(ek.add(ev).add(er) =~= ek.add(ev.add(er)));
        lemma_subrange_split(s, i, ek, ev.add(er));
        lemma_subrange_split(s, i + ek.len(), ev, er);
        lemma_dec_enc_text(s, i, fs[k].0);
        lemma_dec_enc(s, i + ek.len(), fs[k].1);
        lemma_dec_enc_fields(s, i + ek.len() + ev.len(), fs, k + 1);
        assert(seq![(fs[k].0, fs[k].1)].add(fs.skip(k + 1)) =~= fs.skip(k));
        assert(dec_fields(s, i, (fs.len() - k) as nat) == Some((fs.skip(k), i + ek.len()
            + ev.len() + er.len())));
    }
}

/// Round trip: decoding the encoding of any supported value model yields
/// exactly that model. Together with the contracts of `encode` and `decode`
/// this says that `decode(encode(v))` returns a value logically equal to `v`.
pub proof fn lemma_round_trip(m: Val)
    requires
        wf(m),
    ensures
        dec(enc(m)) == Some(m),
{
    let s = enc(m);
    assert(s.subrange(0, s.len() as int) =~= s);
    lemma_dec_enc(s, 0, m);
}


// ---------------------------------------------------------------------------
// The executable decoder
// ---------------------------------------------------------------------------

enum NumScan {
    Missing,
    Fits(u64, usize),
    Huge(usize),
}

proof fn lemma_num_val_mono(s: Seq<u8>, i: int, j: int, e: int)
    requires
        i <= j <= e,
    ensures
        num_val(s, i, e) >= num_val(s, i, j),
    decreases e - j,
{
    if j < e {
        lemma_num_val_mono(s, i, j, e - 1);
    }
}

#[verifier::loop_isolation(false)]
fn scan_number(s: &Vec<u8>, i: usize) -> (r: NumScan)
    requires
        i <= s@.len(),
    ensures
        match r {
            NumScan::Missing => dec_num(s@, i as int) is None,
            NumScan::Fits(v, e) => dec_num(s@, i as int) == Some((v as nat, e as int)) && i < e
                <= s@.len(),
            NumScan::Huge(e) => {
                &&& dec_num(s@, i as int) matches Some(p)
                &&& dec_num(s@, i as int)->Some_0.0 > u64::MAX as nat
                &&& dec_num(s@, i as int)->Some_0.1 == e as int
                &&& i < e <= s@.len()
            },
        },
{
    let n = s.len();
    let mut j: usize = i;
    while j < n && s[j] >= DIGIT_ZERO && s[j] <= 57
        invariant
            i <= j <= n,
            forall|k: int| i <= k < j ==> is_digit(#[trigger] s@[k]),
        decreases n - j,
    {
        j += 1;
    }
    proof {
        lemma_run_end_exact(s@, i as int, j as int);
    }
    if j == i {
        return NumScan::Missing;
    }
    if s[i] == DIGIT_ZERO && j > i + 1 {
        return NumScan::Missing;
    }
    let mut acc: u64 = 0;
    let mut k: usize = i;
    while k < j
        invariant
            i <= k <= j,
            acc as nat == num_val(s@, i as int, k as int),
        decreases j - k,
    {
        let d: u64 = (s[k] - DIGIT_ZERO) as u64;
        if acc > (u64::MAX - d) / 10 {
            proof {
                let m = u64::MAX as int;
                let dd = d as int;
                let a = acc as int;
                assert(m - dd == 10 * ((m - dd) / 10) + (m - dd) % 10);
                assert(a >= (m - dd) / 10 + 1);
                assert(a * 10 >= ((m - dd) / 10 + 1) * 10);
                assert(a * 10 + dd > m);
                assert(num_val(s@, i as int, k + 1 as int) == acc as nat * 10 + (s@[k as int]
                    - DIGIT_ZERO) as nat);
                lemma_num_val_mono(s@, i as int, k + 1 as int, j as int);
            }
            return NumScan::Huge(j);
        }
        proof {
            let m = u64::MAX as int;
            let dd = d as int;
            let a = acc as int;
            assert(m - dd == 10 * ((m - dd) / 10) + (m - dd) % 10);
            assert(a * 10 <= ((m - dd) / 10) * 10);
            assert(a * 10 + dd <= m);
        }
        acc = acc * 10 + d;
        k += 1;
    }
    NumScan::Fits(acc, j)
}

proof fn lemma_dec_items_bound(s: Seq<u8>, i: int, n: nat)
    ensures
        dec_items(s, i, n) is Some ==> n <= rem(s, i),
    decreases n,
{
    if n > 0 && dec_items(s, i, n) is Some {
        match dec_val(s, i) {
            Some(p) => {
                lemma_dec_items_bound(s, p.1, (n - 1) as nat);
            },
            None => {},
        }
    }
}

proof fn lemma_dec_fields_bound(s: Seq<u8>, i: int, n: nat)
    ensures
        dec_fields(s, i, n) is Some ==> n <= rem(s, i),
    decreases n,
{
    if n > 0 && dec_fields(s, i, n) is Some {
        match dec_text(s, i) {
            Some(p) => {
                match dec_val(s, p.1) {
                    Some(q) => {
                        lemma_dec_fields_bound(s, q.1, (n - 1) as nat);
                    },
                    None => {},
                }
            },
            None => {},
        }
    }
}

#[verifier::loop_isolation(false)]
fn parse_text(s: &Vec<u8>, i: usize) -> (r: Result<(Vec<u8>, usize), MarshalError>)
    requires
        i <= s@.len(),
    ensures
        match r {
            Ok(p) => dec_text(s@, i as int) == Some((p.0@, p.1 as int)) && i < p.1 <= s@.len(),
            Err(_) => dec_text(s@, i as int) is None,
        },
{
    if i >= s.len() || s[i] != TAG_TEXT {
        return Err(MarshalError::BadSyntax);
    }
    match scan_number(s, i + 1) {
        NumScan::Missing => Err(MarshalError::BadSyntax),
        NumScan::Huge(e) => {
            proof {
                assert(u64::MAX as nat >= usize::MAX as nat);
                assert(s@.len() <= usize::MAX as nat);
            }
            Err(MarshalError::Truncated)
        },
        NumScan::Fits(v, e) => {
            if e >= s.len() || s[e] != COLON {
                return Err(MarshalError::BadSyntax);
            }
            let rest = s.len() - (e + 1);
            if v > rest as u64 {
                return Err(MarshalError::Truncated);
            }
            let start = e + 1;
            let end = e + 1 + (v as usize);
            let sl = vstd::slice::slice_subrange(s.as_slice(), start, end);
            let t = vstd::slice::slice_to_vec(sl);
            Ok((t, end))
        },
    }
}

#[verifier::loop_isolation(false)]
#[verifier::rlimit(100)]
fn parse_value(s: &Vec<u8>, i: usize) -> (r: Result<(Value, usize), MarshalError>)
    requires
        i <= s@.len(),
    ensures
        match r {
            Ok(p) => dec_val(s@, i as int) == Some((p.0.deep(), p.1 as int)) && i < p.1
                <= s@.len(),
            Err(_) => dec_val(s@, i as int) is None,
        },
    decreases s@.len() - i,
{
    if i >= s.len() {
        return Err(MarshalError::Truncated);
    }
    let tag = s[i];
    if tag == TAG_TRUE {
        return Ok((Value::Bool(true), i + 1));
    }
    if tag == TAG_FALSE {
        return Ok((Value::Bool(false), i + 1));
    }
    if tag == TAG_INT {
        let neg = i + 1 < s.len() && s[i + 1] == DASH;
        let start = if neg {
            i + 2
        } else {
            i + 1
        };
        match scan_number(s, start) {
            NumScan::Missing => Err(MarshalError::BadSyntax),
            NumScan::Huge(_) => Err(MarshalError::IntOutOfRange),
            NumScan::Fits(v, e) => {
                if e >= s.len() || s[e] != SEMI {
                    return Err(MarshalError::BadSyntax);
                }
                if neg {
                    if v > 9223372036854775808u64 {
                        return Err(MarshalError::IntOutOfRange);
                    }
                    let x: i64 = if v == 9223372036854775808u64 {
                        i64::MIN
                    } else {
                        -(v as i64)
                    };
                    Ok((Value::Int(x), e + 1))
                } else {
                    if v > 9223372036854775807u64 {
                        return Err(MarshalError::IntOutOfRange);
                    }
                    Ok((Value::Int(v as i64), e + 1))
                }
            },
        }
    } else if tag == TAG_TEXT {
        match parse_text(s, i) {
            Ok((t, e)) => Ok((Value::Text(t), e)),
            Err(er) => Err(er),
        }
    } else if tag == TAG_LIST {
        match scan_number(s, i + 1) {
            NumScan::Missing => Err(MarshalError::BadSyntax),
            NumScan::Huge(e) => {
                proof {
                    assert(u64::MAX as nat >= usize::MAX as nat);
                    let p = dec_num(s@, i + 1 as int)->Some_0;
                    lemma_dec_items_bound(s@, p.1 + 1, p.0);
                }
                Err(MarshalError::Truncated)
            },
            NumScan::Fits(v, e) => {
                if e >= s.len() || s[e] != COLON {
                    return Err(MarshalError::BadSyntax);
                }
                let start = e + 1;
                let rest = s.len() - start;
                if v > rest as u64 {
                    proof {
                        lemma_dec_items_bound(s@, start as int, v as nat);
                    }
                    return Err(MarshalError::Truncated);
                }
                let count = v as usize;
                let ghost n_nat: nat = v as nat;
                let mut items: Vec<Value> = Vec::new();
                let mut cur: usize = start;
                let mut k: usize = 0;
                proof {
                    assert(deep_items(items, 0) =~= Seq::<Val>::empty());
                }
                while k < count
                    invariant
                        start <= cur <= s@.len(),
                        i < cur,
                        k <= count,
                        dec_items(s@, start as int, n_nat) == (match dec_items(
                            s@,
                            cur as int,
                            (count - k) as nat,
                        ) {
                            Some(p) => Some((deep_items(items, 0).add(p.0), p.1)),
                            None => None::<(Seq<Val>, int)>,
                        }),
                    decreases count - k,
                {
                    match parse_value(s, cur) {
                        Err(er) => {
                            return Err(er);
                        },
                        Ok((item, nx)) => {
                            let ghost prev = items;
                            items.push(item);
                            proof {
                                lemma_deep_items(prev, 0);
                                lemma_deep_items(items, 0);
                                assert(deep_items(items, 0) =~= deep_items(prev, 0).push(
                                    item.deep(),
                                ));
                                match dec_items(s@, nx as int, (count - k - 1) as nat) {
                                    Some(p) => {
                                        assert(dec_items(s@, cur as int, (count - k) as nat)
                                            == Some((seq![item.deep()].add(p.0), p.1)));
                                        assert(deep_items(items, 0).add(p.0) =~= deep_items(
                                            prev,
                                            0,
                                        ).add(seq![item.deep()].add(p.0)));
                                    },
                                    None => {
                                        assert(dec_items(s@, cur as int, (count - k) as nat)
                                            is None);
                                    },
                                }
                            }
                            cur = nx;
                            k += 1;
                        },
                    }
                }
                proof {
                    assert(dec_items(s@, cur as int, 0nat) == Some((Seq::<Val>::empty(),
                        cur as int)));
                    assert(deep_items(items, 0).add(Seq::<Val>::empty()) =~= deep_items(
                        items,
                        0,
                    ));
                }
                Ok((Value::List(items), cur))
            },
        }
    } else if tag == TAG_RECORD {
        match scan_number(s, i + 1) {
            NumScan::Missing => Err(MarshalError::BadSyntax),
            NumScan::Huge(e) => {
                proof {
                    assert(u64::MAX as nat >= usize::MAX as nat);
                    let p = dec_num(s@, i + 1 as int)->Some_0;
                    lemma_dec_fields_bound(s@, p.1 + 1, p.0);
                }
                Err(MarshalError::Truncated)
            },
            NumScan::Fits(v, e) => {
                if e >= s.len() || s[e] != COLON {
                    return Err(MarshalError::BadSyntax);
                }
                let start = e + 1;
                let rest = s.len() - start;
                if v > rest as u64 {
                    proof {
                        lemma_dec_fields_bound(s@, start as int, v as nat);
                    }
                    return Err(MarshalError::Truncated);
                }
                let count = v as usize;
                let ghost n_nat: nat = v as nat;
                let mut fields: Vec<(Vec<u8>, Value)> = Vec::new();
                let mut cur: usize = start;
                let mut k: usize = 0;
                proof {
                    assert(deep_fields(fields, 0) =~= Seq::<(Seq<u8>, Val)>::empty());
                }
                while k < count
                    invariant
                        start <= cur <= s@.len(),
                        i < cur,
                        k <= count,
                        dec_fields(s@, start as int, n_nat) == (match dec_fields(
                            s@,
                            cur as int,
                            (count - k) as nat,
                        ) {
                            Some(p) => Some((deep_fields(fields, 0).add(p.0), p.1)),
                            None => None::<(Seq<(Seq<u8>, Val)>, int)>,
                        }),
                    decreases count - k,
                {
                    let key = match parse_text(s, cur) {
                        Err(er) => {
                            return Err(er);
                        },
                        Ok(p) => p,
                    };
                    match parse_value(s, key.1) {
                        Err(er) => {
                            proof {
                                assert(dec_fields(s@, cur as int, (count - k) as nat) is None);
                            }
                            return Err(er);
                        },
                        Ok((item, nx)) => {
                            let ghost prev = fields;
                            let ghost kv = (key.0@, item.deep());
                            fields.push((key.0, item));
                            proof {
                                lemma_deep_fields(prev, 0);
                                lemma_deep_fields(fields, 0);
                                assert(deep_fields(fields, 0) =~= deep_fields(prev, 0).push(kv));
                                match dec_fields(s@, nx as int, (count - k - 1) as nat) {
                                    Some(p) => {
                                        assert(dec_fields(s@, cur as int, (count - k) as nat)
                                            == Some((seq![kv].add(p.0), p.1)));
                                        assert(deep_fields(fields, 0).add(p.0) =~= deep_fields(
                                            prev,
                                            0,
                                        ).add(seq![kv].add(p.0)));
                                    },
                                    None => {
                                        assert(dec_fields(s@, cur as int, (count - k) as nat)
                                            is None);
                                    },
                                }
                            }
                            cur = nx;
                            k += 1;
                        },
                    }
                }
                proof {
                    assert(dec_fields(s@, cur as int, 0nat) == Some((Seq::<(
                        Seq<u8>,
                        Val,
                    )>::empty(), cur as int)));
                    assert(deep_fields(fields, 0).add(Seq::<(Seq<u8>, Val)>::empty())
                        =~= deep_fields(fields, 0));
                }
                Ok((Value::Record(fields), cur))
            },
        }
    } else {
        Err(MarshalError::BadSyntax)
    }
}

/// Decodes one boundary message. Succeeds exactly when the input is one
/// complete well-formed element with nothing after it, and then returns the
/// value whose model the message spells.
pub fn decode(s: &Vec<u8>) -> (r: Result<Value, MarshalError>)
    ensures
        match r {
            Ok(v) => dec(s@) == Some(v.deep()),
            Err(_) => dec(s@) is None,
        },
{
    match parse_value(s, 0) {
        Ok((v, j)) => {
            if j == s.len() {
                Ok(v)
            } else {
                Err(MarshalError::TrailingBytes)
            }
        },
        Err(e) => Err(e),
    }
}

} // verus!
