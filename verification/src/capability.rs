use vstd::prelude::*;
use crate::value::{Value, lit, lit_view};

verus! {

/// The plugin modules this framework ships.
pub enum PluginKind {
    Auth,
    Logger,
    Validator,
}

/// The primitive kinds an operation's parameters may have at the boundary.
pub enum ParamKind {
    Integer,
    Text,
    Boolean,
    Numeric,
    HandleRef,
}

/// The kind of value an operation answers with.
pub enum ResultKind {
    Boolean,
    Text,
    Envelope,
}

/// One exported operation of a module: its name, parameter kinds, result
/// kind, and whether it mutates the instance or can report an error.
pub struct CapabilityEntry {
    pub name: Vec<u8>,
    pub params: Vec<ParamKind>,
    pub result: ResultKind,
    pub mutates_instance: bool,
    pub fallible: bool,
}

/// Whether a boundary value fits a declared parameter kind. Handle
/// references and numerics travel as 64-bit integers.
pub open spec fn kind_matches(p: ParamKind, v: Value) -> bool {
    match p {
        ParamKind::Integer => v is Int,
        ParamKind::Text => v is Text,
        ParamKind::Boolean => v is Bool,
        ParamKind::Numeric => v is Int,
        ParamKind::HandleRef => v is Int,
    }
}

/// The parameter kinds of the named operation, or nothing when the module
/// does not export it.
pub open spec fn op_params(kind: PluginKind, name: Seq<u8>) -> Option<Seq<ParamKind>> {
    match kind {
        PluginKind::Auth => if name == lit_view("login"@) {
            Some(seq![ParamKind::Text, ParamKind::Text])
        } else if name == lit_view("verify_token"@) {
            Some(seq![ParamKind::Text])
        } else if name == lit_view("get_user_role"@) {
            Some(Seq::empty())
        } else if name == lit_view("logout"@) {
            Some(Seq::empty())
        } else {
            None
        },
        PluginKind::Logger => if name == lit_view("info"@) {
            Some(seq![ParamKind::Text])
        } else if name == lit_view("warn"@) {
            Some(seq![ParamKind::Text])
        } else if name == lit_view("error"@) {
            Some(seq![ParamKind::Text])
        } else if name == lit_view("debug"@) {
            Some(seq![ParamKind::Text, ParamKind::Text])
        } else if name == lit_view("get_logs"@) {
            Some(Seq::empty())
        } else if name == lit_view("clear"@) {
            Some(Seq::empty())
        } else {
            None
        },
        PluginKind::Validator => if name == lit_view("on"@) {
            Some(seq![ParamKind::HandleRef])
        } else if name == lit_view("validate_email"@) {
            Some(seq![ParamKind::Text])
        } else if name == lit_view("validate_url"@) {
            Some(seq![ParamKind::Text])
        } else if name == lit_view("validate_json"@) {
            Some(seq![ParamKind::Text])
        } else if name == lit_view("validate_length"@) {
            Some(seq![ParamKind::Text, ParamKind::Integer, ParamKind::Integer])
        } else if name == lit_view("validate_alphanumeric"@) {
            Some(seq![ParamKind::Text])
        } else {
            None
        },
    }
}

/// Whether the argument list fits the declared parameter kinds: same
/// length, each value of the declared kind.
pub open spec fn args_match(ps: Seq<ParamKind>, args: Seq<Value>) -> bool {
    ps.len() == args.len() && (forall|k: int|
        0 <= k < ps.len() ==> kind_matches(ps[k], #[trigger] args[k]))
}

/// Checks one value against one declared kind.
pub fn check_kind(p: &ParamKind, v: &Value) -> (r: bool)
    ensures
        r == kind_matches(*p, *v),
{
    match p {
        ParamKind::Integer => matches!(v, Value::Int(_)),
        ParamKind::Text => matches!(v, Value::Text(_)),
        ParamKind::Boolean => matches!(v, Value::Bool(_)),
        ParamKind::Numeric => matches!(v, Value::Int(_)),
        ParamKind::HandleRef => matches!(v, Value::Int(_)),
    }
}

/// Checks an argument list against the declared parameter kinds.
pub fn check_args(ps: &Vec<ParamKind>, args: &Vec<Value>) -> (r: bool)
    ensures
        r == args_match(ps@, args@),
{
    if ps.len() != args.len() {
        return false;
    }
    let mut i: usize = 0;
    while i < ps.len()
        invariant
            0 <= i <= ps@.len(),
            ps@.len() == args@.len(),
            forall|k: int| 0 <= k < i ==> kind_matches(ps@[k], #[trigger] args@[k]),
        decreases ps@.len() - i,
    {
        if !check_kind(&ps[i], &args[i]) {
            return false;
        }
        i += 1;
    }
    true
}


/// The descriptor of a module: every exported operation, each name once.
/// The host uses it for validation and documentation; the call itself is
/// name-based through the registry.
#[verifier::rlimit(100)]
pub fn descriptor(kind: &PluginKind) -> (r: Vec<CapabilityEntry>)
    ensures
        forall|i: int, j: int|
            0 <= i < j < r@.len() ==> #[trigger] r@[i].name@ != #[trigger] r@[j].name@,
        forall|i: int|
            0 <= i < r@.len() ==> op_params(*kind, #[trigger] r@[i].name@) == Some(r@[i].params@),
        forall|n: Seq<u8>|
            (#[trigger] op_params(*kind, n)) is Some ==> exists|i: int|
                0 <= i < r@.len() && r@[i].name@ == n,
{
    proof {
        reveal_strlit("clear");
        reveal_strlit("debug");
        reveal_strlit("error");
        reveal_strlit("get_logs");
        reveal_strlit("get_user_role");
        reveal_strlit("info");
        reveal_strlit("login");
        reveal_strlit("logout");
        reveal_strlit("on");
        reveal_strlit("validate_alphanumeric");
        reveal_strlit("validate_email");
        reveal_strlit("validate_json");
        reveal_strlit("validate_length");
        reveal_strlit("validate_url");
        reveal_strlit("verify_token");
        reveal_strlit("warn");
    }
    let mut r: Vec<CapabilityEntry> = Vec::new();
    match kind {
        PluginKind::Auth => {
            let mut ps: Vec<ParamKind> = Vec::new();
            ps.push(ParamKind::Text);
            ps.push(ParamKind::Text);
            r.push(CapabilityEntry { name: lit("login"), params: ps, result: ResultKind::Envelope, mutates_instance: true, fallible: false });
            let mut ps: Vec<ParamKind> = Vec::new();
            ps.push(ParamKind::Text);
            r.push(CapabilityEntry { name: lit("verify_token"), params: ps, result: ResultKind::Boolean, mutates_instance: false, fallible: false });
            let mut ps: Vec<ParamKind> = Vec::new();
            r.push(CapabilityEntry { name: lit("get_user_role"), params: ps, result: ResultKind::Text, mutates_instance: false, fallible: false });
            let mut ps: Vec<ParamKind> = Vec::new();
            r.push(CapabilityEntry { name: lit("logout"), params: ps, result: ResultKind::Boolean, mutates_instance: true, fallible: false });
            proof {
                assert(r@[0].params@ =~= seq![ParamKind::Text, ParamKind::Text]);
                assert(r@[1].params@ =~= seq![ParamKind::Text]);
                assert(r@[2].params@ =~= Seq::empty());
                assert(r@[3].params@ =~= Seq::empty());
                assert forall|i: int| 0 <= i < r@.len() implies op_params(*kind, #[trigger] r@[i].name@) == Some(r@[i].params@) by {
                    if i == 0 {
                        assert(r@[0].name@ == lit_view("login"@));
                        assert(op_params(*kind, r@[0].name@) == Some(r@[0].params@));
                    } else if i == 1 {
                        assert(r@[1].name@ == lit_view("verify_token"@));
                        assert(op_params(*kind, r@[1].name@) == Some(r@[1].params@));
                    } else if i == 2 {
                        assert(r@[2].name@ == lit_view("get_user_role"@));
                        assert(op_params(*kind, r@[2].name@) == Some(r@[2].params@));
                    } else if i == 3 {
                        assert(r@[3].name@ == lit_view("logout"@));
                        assert(op_params(*kind, r@[3].name@) == Some(r@[3].params@));
                    }
                }
                assert forall|n: Seq<u8>| (#[trigger] op_params(*kind, n)) is Some implies exists|i: int| 0 <= i < r@.len() && r@[i].name@ == n by {
                    if n == lit_view("login"@) {
                        assert(r@[0].name@ == n);
                    } else if n == lit_view("verify_token"@) {
                        assert(r@[1].name@ == n);
                    } else if n == lit_view("get_user_role"@) {
                        assert(r@[2].name@ == n);
                    } else if n == lit_view("logout"@) {
                        assert(r@[3].name@ == n);
                    } else {
                        assert(op_params(*kind, n) is None);
                    }
                }
                assert forall|i: int, j: int| 0 <= i < j < r@.len() implies #[trigger] r@[i].name@ != #[trigger] r@[j].name@ by {
                    assert(r@[i].name@.len() != r@[j].name@.len() || r@[i].name@[0] != r@[j].name@[0]);
                }
            }
        },
        PluginKind::Logger => {
            let mut ps: Vec<ParamKind> = Vec::new();
            ps.push(ParamKind::Text);
            r.push(CapabilityEntry { name: lit("info"), params: ps, result: ResultKind::Boolean, mutates_instance: true, fallible: false });
            let mut ps: Vec<ParamKind> = Vec::new();
            ps.push(ParamKind::Text);
            r.push(CapabilityEntry { name: lit("warn"), params: ps, result: ResultKind::Boolean, mutates_instance: true, fallible: false });
            let mut ps: Vec<ParamKind> = Vec::new();
            ps.push(ParamKind::Text);
            r.push(CapabilityEntry { name: lit("error"), params: ps, result: ResultKind::Boolean, mutates_instance: true, fallible: false });
            let mut ps: Vec<ParamKind> = Vec::new();
            ps.push(ParamKind::Text);
            ps.push(ParamKind::Text);
            r.push(CapabilityEntry { name: lit("debug"), params: ps, result: ResultKind::Boolean, mutates_instance: true, fallible: false });
            let mut ps: Vec<ParamKind> = Vec::new();
            r.push(CapabilityEntry { name: lit("get_logs"), params: ps, result: ResultKind::Text, mutates_instance: false, fallible: false });
            let mut ps: Vec<ParamKind> = Vec::new();
            r.push(CapabilityEntry { name: lit("clear"), params: ps, result: ResultKind::Boolean, mutates_instance: true, fallible: false });
            proof {
                assert(r@[0].params@ =~= seq![ParamKind::Text]);
                assert(r@[1].params@ =~= seq![ParamKind::Text]);
                assert(r@[2].params@ =~= seq![ParamKind::Text]);
                assert(r@[3].params@ =~= seq![ParamKind::Text, ParamKind::Text]);
                assert(r@[4].params@ =~= Seq::empty());
                assert(r@[5].params@ =~= Seq::empty());
                assert(lit_view("info"@)[0] != lit_view("warn"@)[0]);
                assert(lit_view("error"@)[0] != lit_view("debug"@)[0]);
                assert(lit_view("error"@)[0] != lit_view("clear"@)[0]);
                assert(lit_view("debug"@)[0] != lit_view("clear"@)[0]);
                assert forall|i: int| 0 <= i < r@.len() implies op_params(*kind, #[trigger] r@[i].name@) == Some(r@[i].params@) by {
                    if i == 0 {
                        assert(r@[0].name@ == lit_view("info"@));
                        assert(op_params(*kind, r@[0].name@) == Some(r@[0].params@));
                    } else if i == 1 {
                        assert(r@[1].name@ == lit_view("warn"@));
                        assert(op_params(*kind, r@[1].name@) == Some(r@[1].params@));
                    } else if i == 2 {
                        assert(r@[2].name@ == lit_view("error"@));
                        assert(op_params(*kind, r@[2].name@) == Some(r@[2].params@));
                    } else if i == 3 {
                        assert(r@[3].name@ == lit_view("debug"@));
                        assert(op_params(*kind, r@[3].name@) == Some(r@[3].params@));
                    } else if i == 4 {
                        assert(r@[4].name@ == lit_view("get_logs"@));
                        assert(op_params(*kind, r@[4].name@) == Some(r@[4].params@));
                    } else if i == 5 {
                        assert(r@[5].name@ == lit_view("clear"@));
                        assert(op_params(*kind, r@[5].name@) == Some(r@[5].params@));
                    }
                }
                assert forall|n: Seq<u8>| (#[trigger] op_params(*kind, n)) is Some implies exists|i: int| 0 <= i < r@.len() && r@[i].name@ == n by {
                    if n == lit_view("info"@) {
                        assert(r@[0].name@ == n);
                    } else if n == lit_view("warn"@) {
                        assert(r@[1].name@ == n);
                    } else if n == lit_view("error"@) {
                        assert(r@[2].name@ == n);
                    } else if n == lit_view("debug"@) {
                        assert(r@[3].name@ == n);
                    } else if n == lit_view("get_logs"@) {
                        assert(r@[4].name@ == n);
                    } else if n == lit_view("clear"@) {
                        assert(r@[5].name@ == n);
                    } else {
                        assert(op_params(*kind, n) is None);
                    }
                }
                assert forall|i: int, j: int| 0 <= i < j < r@.len() implies #[trigger] r@[i].name@ != #[trigger] r@[j].name@ by {
                    assert(r@[i].name@.len() != r@[j].name@.len() || r@[i].name@[0] != r@[j].name@[0]);
                }
            }
        },
        PluginKind::Validator => {
            let mut ps: Vec<ParamKind> = Vec::new();
            ps.push(ParamKind::HandleRef);
            r.push(CapabilityEntry { name: lit("on"), params: ps, result: ResultKind::Boolean, mutates_instance: true, fallible: false });
            let mut ps: Vec<ParamKind> = Vec::new();
            ps.push(ParamKind::Text);
            r.push(CapabilityEntry { name: lit("validate_email"), params: ps, result: ResultKind::Boolean, mutates_instance: false, fallible: false });
            let mut ps: Vec<ParamKind> = Vec::new();
            ps.push(ParamKind::Text);
            r.push(CapabilityEntry { name: lit("validate_url"), params: ps, result: ResultKind::Boolean, mutates_instance: false, fallible: false });
            let mut ps: Vec<ParamKind> = Vec::new();
            ps.push(ParamKind::Text);
            r.push(CapabilityEntry { name: lit("validate_json"), params: ps, result: ResultKind::Boolean, mutates_instance: false, fallible: false });
            let mut ps: Vec<ParamKind> = Vec::new();
            ps.push(ParamKind::Text);
            ps.push(ParamKind::Integer);
            ps.push(ParamKind::Integer);
            r.push(CapabilityEntry { name: lit("validate_length"), params: ps, result: ResultKind::Boolean, mutates_instance: false, fallible: false });
            let mut ps: Vec<ParamKind> = Vec::new();
            ps.push(ParamKind::Text);
            r.push(CapabilityEntry { name: lit("validate_alphanumeric"), params: ps, result: ResultKind::Boolean, mutates_instance: false, fallible: false });
            proof {
                assert(r@[0].params@ =~= seq![ParamKind::HandleRef]);
                assert(r@[1].params@ =~= seq![ParamKind::Text]);
                assert(r@[2].params@ =~= seq![ParamKind::Text]);
                assert(r@[3].params@ =~= seq![ParamKind::Text]);
                assert(r@[4].params@ =~= seq![ParamKind::Text, ParamKind::Integer, ParamKind::Integer]);
                assert(r@[5].params@ =~= seq![ParamKind::Text]);
                assert(lit_view("on"@).len() == 2);
                assert(lit_view("validate_email"@).len() == 14);
                assert(lit_view("validate_url"@).len() == 12);
                assert(lit_view("validate_json"@).len() == 13);
                assert(lit_view("validate_length"@).len() == 15);
                assert(lit_view("validate_alphanumeric"@).len() == 21);
                assert forall|i: int| 0 <= i < r@.len() implies op_params(*kind, #[trigger] r@[i].name@) == Some(r@[i].params@) by {
                    if i == 0 {
                        assert(r@[0].name@ == lit_view("on"@));
                        assert(op_params(*kind, r@[0].name@) == Some(r@[0].params@));
                    } else if i == 1 {
                        assert(r@[1].name@ == lit_view("validate_email"@));
                        assert(op_params(*kind, r@[1].name@) == Some(r@[1].params@));
                    } else if i == 2 {
                        assert(r@[2].name@ == lit_view("validate_url"@));
                        assert(op_params(*kind, r@[2].name@) == Some(r@[2].params@));
                    } else if i == 3 {
                        assert(r@[3].name@ == lit_view("validate_json"@));
                        assert(op_params(*kind, r@[3].name@) == Some(r@[3].params@));
                    } else if i == 4 {
                        assert(r@[4].name@ == lit_view("validate_length"@));
                        assert(op_params(*kind, r@[4].name@) == Some(r@[4].params@));
                    } else if i == 5 {
                        assert(r@[5].name@ == lit_view("validate_alphanumeric"@));
                        assert(op_params(*kind, r@[5].name@) == Some(r@[5].params@));
                    }
                }
                assert forall|n: Seq<u8>| (#[trigger] op_params(*kind, n)) is Some implies exists|i: int| 0 <= i < r@.len() && r@[i].name@ == n by {
                    if n == lit_view("on"@) {
                        assert(r@[0].name@ == n);
                    } else if n == lit_view("validate_email"@) {
                        assert(r@[1].name@ == n);
                    } else if n == lit_view("validate_url"@) {
                        assert(r@[2].name@ == n);
                    } else if n == lit_view("validate_json"@) {
                        assert(r@[3].name@ == n);
                    } else if n == lit_view("validate_length"@) {
                        assert(r@[4].name@ == n);
                    } else if n == lit_view("validate_alphanumeric"@) {
                        assert(r@[5].name@ == n);
                    } else {
                        assert(op_params(*kind, n) is None);
                    }
                }
                assert forall|i: int, j: int| 0 <= i < j < r@.len() implies #[trigger] r@[i].name@ != #[trigger] r@[j].name@ by {
                    assert(r@[i].name@.len() != r@[j].name@.len() || r@[i].name@[0] != r@[j].name@[0]);
                }
            }
        },
    }
    r
}

} // verus!
