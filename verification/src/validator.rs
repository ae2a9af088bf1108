use vstd::prelude::*;
use crate::value::{Value, Val, lit, lit_view, copy_bytes, deep_fields, lemma_deep_fields};
use crate::callback::{CallbackChannel, Delivery};
use crate::marshal::{enc, encode};
use vstd::std_specs::iter::IteratorSpec;

verus! {

#[verifier::external_type_specification]
#[verifier::external_body]
pub struct ExRegex(regex::bytes::Regex);

/// The pattern a compiled matcher was built from.
pub uninterp spec fn regex_pattern(re: regex::bytes::Regex) -> Seq<char>;

/// Whether a pattern compiles: a function of the pattern alone.
pub uninterp spec fn regex_ok(pattern: Seq<char>) -> bool;

/// Whether `pattern` matches somewhere in `text`: a function of the two
/// alone.
pub uninterp spec fn regex_match(pattern: Seq<char>, text: Seq<u8>) -> bool;

/// Whether `text` is one well-formed JSON document: a function of the
/// bytes alone.
pub uninterp spec fn json_valid(text: Seq<u8>) -> bool;

/// Relies on `regex::bytes::Regex::new`: compiles exactly the pattern it
/// is given, succeeding exactly when the pattern is a valid regex.
#[verifier::external_body]
fn regex_compile(pattern: &str) -> (r: Option<regex::bytes::Regex>)
    ensures
        r is Some <==> regex_ok(pattern@),
        r matches Some(re) ==> regex_pattern(re) == pattern@,
{
    match regex::bytes::Regex::new(pattern) {
        Ok(re) => Some(re),
        Err(_) => None,
    }
}

/// Relies on `regex::bytes::Regex::is_match`: whether the compiled pattern
/// matches the haystack, decided by pattern and haystack alone.
#[verifier::external_body]
fn regex_is_match(re: &regex::bytes::Regex, text: &Vec<u8>) -> (r: bool)
    ensures
        r == regex_match(regex_pattern(*re), text@),
{
    re.is_match(text.as_slice())
}

/// Relies on `serde_json::from_slice::<serde_json::Value>`: whether the
/// bytes parse as one JSON document, decided by the bytes alone.
#[verifier::external_body]
fn json_parse_ok(text: &Vec<u8>) -> (r: bool)
    ensures
        r == json_valid(text@),
{
    serde_json::from_slice::<serde_json::Value>(text.as_slice()).is_ok()
}

pub open spec fn email_pattern() -> Seq<char> {
    "^[a-zA-Z0-9._%+-]+@[a-zA-Z0-9.-]+\\.[a-zA-Z]{2,}$"@
}

pub open spec fn url_pattern() -> Seq<char> {
    "^https?://[\\w\\-]+(\\.[\\w\\-]+)+[/#?]?.*$"@
}

/// The envelope a validation emits: the field checked, the verdict, and a
/// short message.
pub open spec fn event_val(field: Seq<u8>, valid: bool, message: Seq<u8>) -> Val {
    Val::Record(
        seq![
            (lit_view("field"@), Val::Text(field)),
            (lit_view("valid"@), Val::Bool(valid)),
            (lit_view("message"@), Val::Text(message)),
        ],
    )
}

/// The message the email check reports for each verdict.
pub open spec fn email_message(valid: bool) -> Seq<u8> {
    if valid {
        lit_view("Valid email"@)
    } else {
        lit_view("Invalid email format"@)
    }
}

/// A validator instance: two compiled patterns and the callback channel its
/// emissions go through.
pub struct Validator {
    pub email_re: regex::bytes::Regex,
    pub url_re: regex::bytes::Regex,
    pub callback: CallbackChannel,
}

/// Whether a character counts as alphanumeric under Unicode rules: a
/// function of the character alone.
pub uninterp spec fn unicode_alnum(c: char) -> bool;

/// Relies on `char::is_alphanumeric`: the Unicode alphanumeric classes,
/// decided by the character alone.
#[verifier::external_body]
fn char_is_alphanumeric(c: char) -> (r: bool)
    ensures
        r == unicode_alnum(c),
{
    c.is_alphanumeric()
}

/// Every character of the text is alphanumeric.
pub open spec fn all_unicode_alnum(cs: Seq<char>) -> bool {
    forall|i: int| 0 <= i < cs.len() ==> unicode_alnum(#[trigger] cs[i])
}

/// The fresh state `Validator::new` returns.
pub open spec fn validator_initial(v: Validator) -> bool {
    &&& regex_pattern(v.email_re) == email_pattern()
    &&& regex_pattern(v.url_re) == url_pattern()
    &&& v.callback.slot is None
}

impl Validator {
    /// A fresh instance: the two patterns compiled, no callback registered.
    /// Succeeds exactly when both shipped patterns compile.
    pub fn new() -> (r: Option<Validator>)
        ensures
            r is Some <==> regex_ok(email_pattern()) && regex_ok(url_pattern()),
            r matches Some(v) ==> validator_initial(v),
    {
        let email_re = match regex_compile("^[a-zA-Z0-9._%+-]+@[a-zA-Z0-9.-]+\\.[a-zA-Z]{2,}$") {
            Some(re) => re,
            None => {
                return None;
            },
        };
        let url_re = match regex_compile("^https?://[\\w\\-]+(\\.[\\w\\-]+)+[/#?]?.*$") {
            Some(re) => re,
            None => {
                return None;
            },
        };
        Some(Validator { email_re, url_re, callback: CallbackChannel::new() })
    }

    /// Registers the host's callback reference, replacing any previous one.
    pub fn on(&mut self, callback: i64)
        ensures
            final(self).callback.slot == Some(callback),
            final(self).email_re == old(self).email_re,
            final(self).url_re == old(self).url_re,
    {
        self.callback.register(callback);
    }

    /// Fires the callback channel with an encoded validation envelope;
    /// yields the delivery the host must perform, or nothing when no
    /// callback is registered.
    pub fn emit(&self, field: &Vec<u8>, valid: bool, message: &Vec<u8>) -> (r: Option<Delivery>)
        ensures
            match self.callback.slot {
                Some(cb) => r matches Some(d) && d.target == cb && d.payload@ == enc(
                    event_val(field@, valid, message@),
                ),
                None => r is None,
            },
    {
        proof {
            reveal_strlit("field");
            reveal_strlit("valid");
            reveal_strlit("message");
        }
        let mut fields: Vec<(Vec<u8>, Value)> = Vec::new();
        fields.push((lit("field"), Value::Text(copy_bytes(field))));
        fields.push((lit("valid"), Value::Bool(valid)));
        fields.push((lit("message"), Value::Text(copy_bytes(message))));
        let env = Value::Record(fields);
        proof {
            let fs = env->Record_0;
            lemma_deep_fields(fs, 0);
            assert(deep_fields(fs, 0) =~= event_val(field@, valid, message@)->Record_0);
        }
        self.callback.fire(encode(&env))
    }

    /// Checks the email pattern and emits the verdict envelope through the
    /// callback channel; the delivery, if any, is handed back for the host
    /// to perform.
    pub fn validate_email(&self, email: &Vec<u8>) -> (r: (bool, Option<Delivery>))
        ensures
            r.0 == regex_match(regex_pattern(self.email_re), email@),
            match self.callback.slot {
                Some(cb) => r.1 matches Some(d) && d.target == cb && d.payload@ == enc(
                    event_val(lit_view("email"@), r.0, email_message(r.0)),
                ),
                None => r.1 is None,
            },
    {
        proof {
            reveal_strlit("email");
            reveal_strlit("Valid email");
            reveal_strlit("Invalid email format");
        }
        let valid = regex_is_match(&self.email_re, email);
        let field = lit("email");
        let message = if valid {
            lit("Valid email")
        } else {
            lit("Invalid email format")
        };
        let delivery = self.emit(&field, valid, &message);
        (valid, delivery)
    }

    /// Checks the URL pattern; no envelope is emitted.
    pub fn validate_url(&self, url: &Vec<u8>) -> (r: bool)
        ensures
            r == regex_match(regex_pattern(self.url_re), url@),
    {
        regex_is_match(&self.url_re, url)
    }

    /// Whether the text is one well-formed JSON document.
    pub fn validate_json(&self, json_text: &Vec<u8>) -> (r: bool)
        ensures
            r == json_valid(json_text@),
    {
        json_parse_ok(json_text)
    }

    /// Whether the text's length lies between `min` and `max`, inclusive.
    pub fn validate_length(&self, text: &Vec<u8>, min: usize, max: usize) -> (r: bool)
        ensures
            r == (min <= text@.len() <= max),
    {
        let len = text.len();
        len >= min && len <= max
    }

    /// Whether every character of the text is alphanumeric under Unicode
    /// rules.
    pub fn validate_alphanumeric(&self, text: &str) -> (r: bool)
        ensures
            r == all_unicode_alnum(text@),
    {
        proof {
            broadcast use vstd::string::axiom_spec_iter, vstd::string::next_postcondition;

        }
        let mut it = text.chars();
        let ghost mut k: int = 0;
        proof {
            assert(it.remaining() =~= text@.skip(0));
        }
        #[allow(while_true)]
        while true
            invariant
                0 <= k <= text@.len(),
                it.obeys_prophetic_iter_laws(),
                it.remaining() == text@.skip(k),
                forall|i: int| 0 <= i < k ==> unicode_alnum(#[trigger] text@[i]),
            decreases text@.len() - k,
        {
            let step = it.next();
            match step {
                None => {
                    proof {
                        assert(text@.skip(k).len() == 0);
                    }
                    return true;
                },
                Some(c) => {
                    proof {
                        assert(c == text@.skip(k)[0]);
                        assert(c == text@[k]);
                    }
                    if !char_is_alphanumeric(c) {
                        return false;
                    }
                    proof {
                        assert(text@.skip(k).drop_first() =~= text@.skip(k + 1));
                        k = k + 1;
                    }
                },
            }
        }
        true
    }
}

} // verus!
