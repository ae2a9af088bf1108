use vstd::prelude::*;
use crate::value::{Value, Val, lit, lit_view, bytes_eq, bytes_as_str, utf8_chars};
use crate::capability::{PluginKind, ParamKind, op_params, args_match, check_args};
use crate::callback::Delivery;
use crate::auth::{Auth, auth_initial, login_env, lookup_user, guest_role};
use crate::logger::{Logger, entry_fields, push_bounded, logs_val, DEFAULT_RETENTION};
use crate::validator::{Validator, validator_initial, regex_pattern, regex_match, regex_ok,
    json_valid, event_val, email_message, all_unicode_alnum, email_pattern, url_pattern};
use crate::marshal::enc;

verus! {

/// One live plugin instance.
pub enum Instance {
    Auth(Auth),
    Logger(Logger),
    Validator(Validator),
}

/// What `invoke` answers on success: the operation's result value and, if
/// the operation fired the instance's callback, the delivery the host must
/// perform before handing the result on.
pub struct InvokeOutcome {
    pub result: Value,
    pub emission: Option<Delivery>,
}

/// Why a construction failed.
#[derive(Debug)]
pub enum ConstructError {
    /// The module is not in the `Initialized` state.
    ModuleNotReady,
    /// A compiled pattern the instance needs was refused.
    PatternCompilation,
    /// No fresh handle is left.
    Exhausted,
}

/// Why an invocation failed. All are caller errors: the registry state is
/// unchanged.
#[derive(Debug)]
pub enum InvokeError {
    /// The handle was never issued or was already destroyed.
    UnknownHandle,
    /// The module does not export an operation of that name.
    UnknownOperation,
    /// The arguments do not fit the operation's declared parameter kinds.
    ArityOrTypeMismatch,
    /// The module is not in the `Initialized` state.
    ModuleNotReady,
}

pub open spec fn kind_of(inst: Instance) -> PluginKind {
    match inst {
        Instance::Auth(_) => PluginKind::Auth,
        Instance::Logger(_) => PluginKind::Logger,
        Instance::Validator(_) => PluginKind::Validator,
    }
}

/// The fresh state a constructor of `kind` must deliver.
pub open spec fn kind_initial(kind: PluginKind, inst: Instance) -> bool {
    match (kind, inst) {
        (PluginKind::Auth, Instance::Auth(a)) => auth_initial(a),
        (PluginKind::Logger, Instance::Logger(l)) => l.entries@.len() == 0 && l.max_entries
            == DEFAULT_RETENTION,
        (PluginKind::Validator, Instance::Validator(v)) => validator_initial(v),
        _ => false,
    }
}

/// How one successful operation takes the instance from `pre` to `post`
/// and what it answers.
pub open spec fn step_rel(
    pre: Instance,
    op: Seq<u8>,
    args: Seq<Value>,
    post: Instance,
    out: InvokeOutcome,
) -> bool {
    match pre {
        Instance::Auth(a) => match post {
            Instance::Auth(a2) => auth_step(a, op, args, a2, out),
            _ => false,
        },
        Instance::Logger(l) => match post {
            Instance::Logger(l2) => logger_step(l, op, args, l2, out),
            _ => false,
        },
        Instance::Validator(v) => match post {
            Instance::Validator(v2) => validator_step(v, op, args, v2, out),
            _ => false,
        },
    }
}

pub open spec fn auth_step(a: Auth, op: Seq<u8>, args: Seq<Value>, a2: Auth, out: InvokeOutcome) -> bool {
    &&& out.emission is None
    &&& if op == lit_view("login"@) {
        let name = args[0]->Text_0@;
        &&& a2.users == a.users
        &&& out.result.deep() == login_env(a.users@, name)
        &&& match lookup_user(a.users@, name) {
            Some(u) => a2.current_user matches Some(cu) && cu.username@ == u.username@
                && cu.role@ == u.role@ && cu.token@ == u.token@,
            None => a2.current_user == a.current_user,
        }
    } else if op == lit_view("verify_token"@) {
        &&& a2 == a
        &&& out.result == Value::Bool(
            match a.current_user {
                Some(u) => u.token@ == args[0]->Text_0@,
                None => false,
            },
        )
    } else if op == lit_view("get_user_role"@) {
        &&& a2 == a
        &&& out.result.deep() == Val::Text(
            match a.current_user {
                Some(u) => u.role@,
                None => guest_role(),
            },
        )
    } else if op == lit_view("logout"@) {
        &&& a2.current_user is None
        &&& a2.users == a.users
        &&& out.result == Value::Bool(true)
    } else {
        false
    }
}

pub open spec fn logger_step(l: Logger, op: Seq<u8>, args: Seq<Value>, l2: Logger, out: InvokeOutcome) -> bool {
    &&& out.emission is None
    &&& l2.max_entries == l.max_entries
    &&& if op == lit_view("info"@) {
        &&& out.result == Value::Bool(true)
        &&& exists|e: crate::logger::LogEntry|
            entry_fields(e, lit_view("INFO"@), args[0]->Text_0@, None) && l2.entries@
                == push_bounded(l.entries@, e, l.max_entries as nat)
    } else if op == lit_view("warn"@) {
        &&& out.result == Value::Bool(true)
        &&& exists|e: crate::logger::LogEntry|
            entry_fields(e, lit_view("WARN"@), args[0]->Text_0@, None) && l2.entries@
                == push_bounded(l.entries@, e, l.max_entries as nat)
    } else if op == lit_view("error"@) {
        &&& out.result == Value::Bool(true)
        &&& exists|e: crate::logger::LogEntry|
            entry_fields(e, lit_view("ERROR"@), args[0]->Text_0@, None) && l2.entries@
                == push_bounded(l.entries@, e, l.max_entries as nat)
    } else if op == lit_view("debug"@) {
        &&& out.result == Value::Bool(true)
        &&& exists|e: crate::logger::LogEntry|
            entry_fields(e, lit_view("DEBUG"@), args[0]->Text_0@, Some(args[1]->Text_0@))
                && l2.entries@ == push_bounded(l.entries@, e, l.max_entries as nat)
    } else if op == lit_view("get_logs"@) {
        &&& l2 == l
        &&& out.result is Text
        &&& out.result->Text_0@ == enc(logs_val(l.entries@))
    } else if op == lit_view("clear"@) {
        &&& l2.entries@.len() == 0
        &&& out.result == Value::Bool(true)
    } else {
        false
    }
}

pub open spec fn validator_step(v: Validator, op: Seq<u8>, args: Seq<Value>, v2: Validator, out: InvokeOutcome) -> bool {
    if op == lit_view("on"@) {
        &&& v2.callback.slot == Some(args[0]->Int_0)
        &&& v2.email_re == v.email_re
        &&& v2.url_re == v.url_re
        &&& out.result == Value::Bool(true)
        &&& out.emission is None
    } else if op == lit_view("validate_email"@) {
        let b = regex_match(regex_pattern(v.email_re), args[0]->Text_0@);
        &&& v2 == v
        &&& out.result == Value::Bool(b)
        &&& match v.callback.slot {
            Some(cb) => out.emission matches Some(d) && d.target == cb && d.payload@ == enc(
                event_val(lit_view("email"@), b, email_message(b)),
            ),
            None => out.emission is None,
        }
    } else if op == lit_view("validate_url"@) {
        &&& v2 == v
        &&& out.result == Value::Bool(regex_match(regex_pattern(v.url_re), args[0]->Text_0@))
        &&& out.emission is None
    } else if op == lit_view("validate_json"@) {
        &&& v2 == v
        &&& out.result == Value::Bool(json_valid(args[0]->Text_0@))
        &&& out.emission is None
    } else if op == lit_view("validate_length"@) {
        &&& v2 == v
        &&& out.result == Value::Bool(
            args[1]->Int_0 <= args[0]->Text_0@.len() && args[0]->Text_0@.len() <= args[2]->Int_0,
        )
        &&& out.emission is None
    } else if op == lit_view("validate_alphanumeric"@) {
        &&& v2 == v
        &&& out.result == Value::Bool(
            match utf8_chars(args[0]->Text_0@) {
                Some(cs) => all_unicode_alnum(cs),
                None => false,
            },
        )
        &&& out.emission is None
    } else {
        false
    }
}

/// The index of `h` among the live handles, or a negative answer.
pub open spec fn idx_of(live: Seq<(u64, Instance)>, h: u64) -> int
    decreases live.len(),
{
    if live.len() == 0 {
        -1
    } else if live[0].0 == h {
        0
    } else {
        let r = idx_of(live.drop_first(), h);
        if r < 0 {
            -1
        } else {
            r + 1
        }
    }
}

proof fn lemma_idx_of_scan(live: Seq<(u64, Instance)>, h: u64, idx: int)
    requires
        0 <= idx <= live.len(),
        forall|k: int| 0 <= k < idx ==> live[k].0 != h,
        idx < live.len() ==> live[idx].0 == h,
    ensures
        idx_of(live, h) == (if idx < live.len() {
            idx
        } else {
            -1
        }),
    decreases live.len(),
{
    if live.len() == 0 {
    } else if live[0].0 == h {
        assert(idx == 0);
    } else {
        assert(idx >= 1);
        let rest = live.drop_first();
        assert(forall|k: int| 0 <= k < idx - 1 ==> rest[k].0 != h);
        if idx < live.len() {
            assert(rest[idx - 1] == live[idx]);
        }
        lemma_idx_of_scan(rest, h, idx - 1);
    }
}


/// What a construction promises, stated over the registry before and
/// after.
pub open spec fn construct_post(pre: Registry, post: Registry, kind: PluginKind, r: Result<
    u64,
    ConstructError,
>) -> bool {
    &&& r is Err ==> post == pre
    &&& r == Err::<u64, ConstructError>(ConstructError::Exhausted) ==> pre.next_handle
        == u64::MAX
    &&& !(kind is Validator) && pre.next_handle < u64::MAX ==> r is Ok
    &&& kind is Validator && pre.next_handle < u64::MAX ==> (r is Ok <==> regex_ok(
        email_pattern(),
    ) && regex_ok(url_pattern()))
    &&& r matches Ok(h) ==> {
        &&& h == pre.next_handle
        &&& post.next_handle == pre.next_handle + 1
        &&& !pre.is_live(h)
        &&& post.is_live(h)
        &&& post.live@.len() == pre.live@.len() + 1
        &&& post.live@.drop_last() == pre.live@
        &&& post.live@.last().0 == h
        &&& kind_initial(kind, post.live@.last().1)
    }
}

/// What an invocation promises: the three caller errors come exactly on
/// their causes and change nothing; otherwise the addressed instance steps
/// by `step_rel` and every other row is untouched.
pub open spec fn invoke_post(
    pre: Registry,
    post: Registry,
    h: u64,
    op: Seq<u8>,
    args: Seq<Value>,
    r: Result<InvokeOutcome, InvokeError>,
) -> bool {
    &&& post.next_handle == pre.next_handle
    &&& ((r == Err::<InvokeOutcome, InvokeError>(InvokeError::UnknownHandle)) <==> !pre.is_live(
        h,
    ))
    &&& !pre.is_live(h) ==> post == pre
    &&& pre.is_live(h) ==> {
        let i = idx_of(pre.live@, h);
        let before = pre.live@[i].1;
        let after = post.live@[i].1;
        &&& post.live@.len() == pre.live@.len()
        &&& forall|j: int| 0 <= j < pre.live@.len() && j != i ==> post.live@[j] == pre.live@[j]
        &&& post.live@[i].0 == h
        &&& match r {
            Ok(out) => op_params(kind_of(before), op) matches Some(ps) && args_match(ps, args)
                && step_rel(before, op, args, after, out),
            Err(InvokeError::UnknownOperation) => after == before && op_params(
                kind_of(before),
                op,
            ) is None,
            Err(InvokeError::ArityOrTypeMismatch) => after == before && (op_params(
                kind_of(before),
                op,
            ) matches Some(ps) && !args_match(ps, args)),
            Err(_) => false,
        }
    }
}

/// What a destruction promises: `UnknownHandle` exactly when the handle is
/// not live, and afterwards the handle is gone and the rest untouched.
pub open spec fn destroy_post(pre: Registry, post: Registry, h: u64, r: Result<
    (),
    InvokeError,
>) -> bool {
    &&& post.next_handle == pre.next_handle
    &&& ((r == Err::<(), InvokeError>(InvokeError::UnknownHandle)) <==> !pre.is_live(h))
    &&& (r is Ok <==> pre.is_live(h))
    &&& !pre.is_live(h) ==> post == pre
    &&& r is Ok ==> {
        &&& post.live@ == pre.live@.remove(idx_of(pre.live@, h))
        &&& !post.is_live(h)
    }
}

/// The registry of live instances: each opaque handle owns exactly one
/// instance; handles grow strictly, so a live handle is never reissued.
pub struct Registry {
    pub next_handle: u64,
    pub live: Vec<(u64, Instance)>,
}

impl Registry {
    /// Handles strictly increase along the table and stay below the next
    /// handle to issue.
    pub open spec fn wf(self) -> bool {
        &&& forall|i: int, j: int|
            0 <= i < j < self.live@.len() ==> #[trigger] self.live@[i].0 < #[trigger] self.live@[j].0
        &&& forall|i: int| 0 <= i < self.live@.len() ==> #[trigger] self.live@[i].0 < self.next_handle
    }

    pub open spec fn is_live(self, h: u64) -> bool {
        idx_of(self.live@, h) >= 0
    }

    /// An empty registry: no live handle, handles issued from zero.
    pub fn new() -> (r: Registry)
        ensures
            r.wf(),
            r.live@.len() == 0,
            r.next_handle == 0,
    {
        Registry { next_handle: 0, live: Vec::new() }
    }

    fn find(&self, h: u64) -> (r: Option<usize>)
        ensures
            match r {
                Some(i) => idx_of(self.live@, h) == i as int && i < self.live@.len()
                    && self.live@[i as int].0 == h,
                None => idx_of(self.live@, h) < 0,
            },
    {
        let mut i: usize = 0;
        let n = self.live.len();
        while i < n
            invariant
                0 <= i <= n,
                n == self.live@.len(),
                forall|k: int| 0 <= k < i ==> self.live@[k].0 != h,
            decreases n - i,
        {
            if self.live[i].0 == h {
                proof {
                    lemma_idx_of_scan(self.live@, h, i as int);
                }
                return Some(i);
            }
            i += 1;
        }
        proof {
            lemma_idx_of_scan(self.live@, h, n as int);
        }
        None
    }

    /// Builds a fresh instance of `kind` and returns its handle: unique
    /// among the live handles, never one that is still live. Succeeds
    /// whenever handles remain and the instance's patterns compile; the
    /// auth and logger kinds always construct.
    pub fn construct(&mut self, kind: PluginKind) -> (r: Result<u64, ConstructError>)
        requires
            old(self).wf(),
        ensures
            final(self).wf(),
            construct_post(*old(self), *final(self), kind, r),
    {
        if self.next_handle == u64::MAX {
            return Err(ConstructError::Exhausted);
        }
        let inst = match kind {
            PluginKind::Auth => Instance::Auth(Auth::new()),
            PluginKind::Logger => Instance::Logger(Logger::new()),
            PluginKind::Validator => match Validator::new() {
                Some(v) => Instance::Validator(v),
                None => {
                    return Err(ConstructError::PatternCompilation);
                },
            },
        };
        let h = self.next_handle;
        proof {
            assert(forall|k: int| 0 <= k < self.live@.len() ==> self.live@[k].0 != h);
            lemma_idx_of_scan(self.live@, h, self.live@.len() as int);
        }
        self.live.push((h, inst));
        self.next_handle = h + 1;
        proof {
            assert(self.live@.drop_last() =~= old(self).live@);
            lemma_idx_of_scan(self.live@, h, old(self).live@.len() as int);
        }
        Ok(h)
    }

    /// Invokes `op` on the instance behind `h`. Fails with `UnknownHandle`
    /// exactly when `h` is not live, with `UnknownOperation` exactly when
    /// the module exports no such name, with `ArityOrTypeMismatch` exactly
    /// when the arguments do not fit the descriptor — and then changes
    /// nothing. Otherwise the operation's effect and answer are those of
    /// `step_rel`.
    pub fn invoke(&mut self, h: u64, op: &Vec<u8>, args: &Vec<Value>) -> (r: Result<
        InvokeOutcome,
        InvokeError,
    >)
        requires
            old(self).wf(),
        ensures
            final(self).wf(),
            invoke_post(*old(self), *final(self), h, op@, args@, r),
    {
        let idx = match self.find(h) {
            Some(i) => i,
            None => {
                return Err(InvokeError::UnknownHandle);
            },
        };
        let (hh, inst) = self.live.remove(idx);
        let (inst2, res) = dispatch(inst, op, args);
        self.live.insert(idx, (hh, inst2));
        proof {
            assert(forall|j: int|
                0 <= j < old(self).live@.len() && j != idx ==> final(self).live@[j] == old(
                    self,
                ).live@[j]);
            assert(forall|i: int, j: int|
                0 <= i < j < self.live@.len() ==> #[trigger] self.live@[i].0 < #[trigger] self.live@[j].0);
        }
        match res {
            Ok(out) => Ok(out),
            Err(e) => Err(e),
        }
    }

    /// Releases the instance behind `h`. Fails with `UnknownHandle` exactly
    /// when `h` is not live — so a second destroy of the same handle is
    /// reported, not a crash — and afterwards `h` is no longer live.
    pub fn destroy(&mut self, h: u64) -> (r: Result<(), InvokeError>)
        requires
            old(self).wf(),
        ensures
            final(self).wf(),
            destroy_post(*old(self), *final(self), h, r),
    {
        let idx = match self.find(h) {
            Some(i) => i,
            None => {
                return Err(InvokeError::UnknownHandle);
            },
        };
        let _ = self.live.remove(idx);
        proof {
            assert(self.live@ =~= old(self).live@.remove(idx as int));
            assert(forall|k: int| 0 <= k < self.live@.len() ==> self.live@[k].0 != h) by {
                assert(forall|i: int, j: int|
                    0 <= i < j < old(self).live@.len() ==> #[trigger] old(self).live@[i].0
                        < #[trigger] old(self).live@[j].0);
            }
            lemma_idx_of_scan(self.live@, h, self.live@.len() as int);
        }
        Ok(())
    }
}

/// Handle uniqueness law: two distinct rows of a well-formed registry hold
/// distinct handles, so the handles returned by any run of constructions
/// are pairwise distinct while live.
pub proof fn lemma_handles_distinct(r: Registry, i: int, j: int)
    requires
        r.wf(),
        0 <= i < r.live@.len(),
        0 <= j < r.live@.len(),
        i != j,
    ensures
        r.live@[i].0 != r.live@[j].0,
{
}

/// Runs one operation against one instance: resolves the name in the
/// instance's descriptor, checks the arguments against it, and applies the
/// operation.
fn dispatch(inst: Instance, op: &Vec<u8>, args: &Vec<Value>) -> (r: (Instance, Result<
    InvokeOutcome,
    InvokeError,
>))
    ensures
        match r.1 {
            Ok(out) => op_params(kind_of(inst), op@) matches Some(ps) && args_match(ps, args@)
                && step_rel(inst, op@, args@, r.0, out),
            Err(InvokeError::UnknownOperation) => r.0 == inst && op_params(kind_of(inst), op@)
                is None,
            Err(InvokeError::ArityOrTypeMismatch) => r.0 == inst && (op_params(
                kind_of(inst),
                op@,
            ) matches Some(ps) && !args_match(ps, args@)),
            Err(_) => false,
        },
{
    proof {
        reveal_strlit("login");
        reveal_strlit("verify_token");
        reveal_strlit("get_user_role");
        reveal_strlit("logout");
        reveal_strlit("info");
        reveal_strlit("warn");
        reveal_strlit("error");
        reveal_strlit("debug");
        reveal_strlit("get_logs");
        reveal_strlit("clear");
        reveal_strlit("on");
        reveal_strlit("validate_email");
        reveal_strlit("validate_url");
        reveal_strlit("validate_json");
        reveal_strlit("validate_length");
        reveal_strlit("validate_alphanumeric");
    }
    match inst {
        Instance::Auth(mut a) => {
            if bytes_eq(op, &lit("login")) {
                let mut ps: Vec<ParamKind> = Vec::new();
                ps.push(ParamKind::Text);
                ps.push(ParamKind::Text);
                proof {
                    assert(ps@ =~= seq![ParamKind::Text, ParamKind::Text]);
                }
                if !check_args(&ps, args) {
                    return (Instance::Auth(a), Err(InvokeError::ArityOrTypeMismatch));
                }
                let username = match &args[0] {
                    Value::Text(t) => t,
                    _ => unreached(),
                };
                let password = match &args[1] {
                    Value::Text(t) => t,
                    _ => unreached(),
                };
                let env = a.login(username, password);
                (
                    Instance::Auth(a),
                    Ok(InvokeOutcome { result: env, emission: None }),
                )
            } else if bytes_eq(op, &lit("verify_token")) {
                let mut ps: Vec<ParamKind> = Vec::new();
                ps.push(ParamKind::Text);
                proof {
                    assert(ps@ =~= seq![ParamKind::Text]);
                }
                if !check_args(&ps, args) {
                    return (Instance::Auth(a), Err(InvokeError::ArityOrTypeMismatch));
                }
                let token = match &args[0] {
                    Value::Text(t) => t,
                    _ => unreached(),
                };
                let b = a.verify_token(token);
                (
                    Instance::Auth(a),
                    Ok(InvokeOutcome { result: Value::Bool(b), emission: None }),
                )
            } else if bytes_eq(op, &lit("get_user_role")) {
                let ps: Vec<ParamKind> = Vec::new();
                if !check_args(&ps, args) {
                    return (Instance::Auth(a), Err(InvokeError::ArityOrTypeMismatch));
                }
                let role = a.get_user_role();
                (
                    Instance::Auth(a),
                    Ok(InvokeOutcome { result: Value::Text(role), emission: None }),
                )
            } else if bytes_eq(op, &lit("logout")) {
                let ps: Vec<ParamKind> = Vec::new();
                if !check_args(&ps, args) {
                    return (Instance::Auth(a), Err(InvokeError::ArityOrTypeMismatch));
                }
                a.logout();
                (
                    Instance::Auth(a),
                    Ok(InvokeOutcome { result: Value::Bool(true), emission: None }),
                )
            } else {
                (Instance::Auth(a), Err(InvokeError::UnknownOperation))
            }
        },
        Instance::Logger(mut l) => {
            if bytes_eq(op, &lit("info")) {
                let mut ps: Vec<ParamKind> = Vec::new();
                ps.push(ParamKind::Text);
                proof {
                    assert(ps@ =~= seq![ParamKind::Text]);
                }
                if !check_args(&ps, args) {
                    return (Instance::Logger(l), Err(InvokeError::ArityOrTypeMismatch));
                }
                let message = match &args[0] {
                    Value::Text(t) => t,
                    _ => unreached(),
                };
                l.info(message);
                (
                    Instance::Logger(l),
                    Ok(InvokeOutcome { result: Value::Bool(true), emission: None }),
                )
            } else if bytes_eq(op, &lit("warn")) {
                let mut ps: Vec<ParamKind> = Vec::new();
                ps.push(ParamKind::Text);
                proof {
                    assert(ps@ =~= seq![ParamKind::Text]);
                }
                if !check_args(&ps, args) {
                    return (Instance::Logger(l), Err(InvokeError::ArityOrTypeMismatch));
                }
                let message = match &args[0] {
                    Value::Text(t) => t,
                    _ => unreached(),
                };
                l.warn(message);
                (
                    Instance::Logger(l),
                    Ok(InvokeOutcome { result: Value::Bool(true), emission: None }),
                )
            } else if bytes_eq(op, &lit("error")) {
                let mut ps: Vec<ParamKind> = Vec::new();
                ps.push(ParamKind::Text);
                proof {
                    assert(ps@ =~= seq![ParamKind::Text]);
                }
                if !check_args(&ps, args) {
                    return (Instance::Logger(l), Err(InvokeError::ArityOrTypeMismatch));
                }
                let message = match &args[0] {
                    Value::Text(t) => t,
                    _ => unreached(),
                };
                l.error(message);
                (
                    Instance::Logger(l),
                    Ok(InvokeOutcome { result: Value::Bool(true), emission: None }),
                )
            } else if bytes_eq(op, &lit("debug")) {
                let mut ps: Vec<ParamKind> = Vec::new();
                ps.push(ParamKind::Text);
                ps.push(ParamKind::Text);
                proof {
                    assert(ps@ =~= seq![ParamKind::Text, ParamKind::Text]);
                }
                if !check_args(&ps, args) {
                    return (Instance::Logger(l), Err(InvokeError::ArityOrTypeMismatch));
                }
                let message = match &args[0] {
                    Value::Text(t) => t,
                    _ => unreached(),
                };
                let metadata = match &args[1] {
                    Value::Text(t) => t,
                    _ => unreached(),
                };
                l.debug(message, metadata);
                (
                    Instance::Logger(l),
                    Ok(InvokeOutcome { result: Value::Bool(true), emission: None }),
                )
            } else if bytes_eq(op, &lit("get_logs")) {
                let ps: Vec<ParamKind> = Vec::new();
                if !check_args(&ps, args) {
                    return (Instance::Logger(l), Err(InvokeError::ArityOrTypeMismatch));
                }
                let encoded = l.get_logs();
                (
                    Instance::Logger(l),
                    Ok(InvokeOutcome { result: Value::Text(encoded), emission: None }),
                )
            } else if bytes_eq(op, &lit("clear")) {
                let ps: Vec<ParamKind> = Vec::new();
                if !check_args(&ps, args) {
                    return (Instance::Logger(l), Err(InvokeError::ArityOrTypeMismatch));
                }
                l.clear();
                (
                    Instance::Logger(l),
                    Ok(InvokeOutcome { result: Value::Bool(true), emission: None }),
                )
            } else {
                (Instance::Logger(l), Err(InvokeError::UnknownOperation))
            }
        },
        Instance::Validator(mut v) => {
            if bytes_eq(op, &lit("on")) {
                let mut ps: Vec<ParamKind> = Vec::new();
                ps.push(ParamKind::HandleRef);
                proof {
                    assert(ps@ =~= seq![ParamKind::HandleRef]);
                }
                if !check_args(&ps, args) {
                    return (Instance::Validator(v), Err(InvokeError::ArityOrTypeMismatch));
                }
                let target = match &args[0] {
                    Value::Int(i) => *i,
                    _ => unreached(),
                };
                v.on(target);
                (
                    Instance::Validator(v),
                    Ok(InvokeOutcome { result: Value::Bool(true), emission: None }),
                )
            } else if bytes_eq(op, &lit("validate_email")) {
                let mut ps: Vec<ParamKind> = Vec::new();
                ps.push(ParamKind::Text);
                proof {
                    assert(ps@ =~= seq![ParamKind::Text]);
                }
                if !check_args(&ps, args) {
                    return (Instance::Validator(v), Err(InvokeError::ArityOrTypeMismatch));
                }
                let email = match &args[0] {
                    Value::Text(t) => t,
                    _ => unreached(),
                };
                let (b, delivery) = v.validate_email(email);
                (
                    Instance::Validator(v),
                    Ok(InvokeOutcome { result: Value::Bool(b), emission: delivery }),
                )
            } else if bytes_eq(op, &lit("validate_url")) {
                let mut ps: Vec<ParamKind> = Vec::new();
                ps.push(ParamKind::Text);
                proof {
                    assert(ps@ =~= seq![ParamKind::Text]);
                }
                if !check_args(&ps, args) {
                    return (Instance::Validator(v), Err(InvokeError::ArityOrTypeMismatch));
                }
                let url = match &args[0] {
                    Value::Text(t) => t,
                    _ => unreached(),
                };
                let b = v.validate_url(url);
                (
                    Instance::Validator(v),
                    Ok(InvokeOutcome { result: Value::Bool(b), emission: None }),
                )
            } else if bytes_eq(op, &lit("validate_json")) {
                let mut ps: Vec<ParamKind> = Vec::new();
                ps.push(ParamKind::Text);
                proof {
                    assert(ps@ =~= seq![ParamKind::Text]);
                }
                if !check_args(&ps, args) {
                    return (Instance::Validator(v), Err(InvokeError::ArityOrTypeMismatch));
                }
                let text = match &args[0] {
                    Value::Text(t) => t,
                    _ => unreached(),
                };
                let b = v.validate_json(text);
                (
                    Instance::Validator(v),
                    Ok(InvokeOutcome { result: Value::Bool(b), emission: None }),
                )
            } else if bytes_eq(op, &lit("validate_length")) {
                let mut ps: Vec<ParamKind> = Vec::new();
                ps.push(ParamKind::Text);
                ps.push(ParamKind::Integer);
                ps.push(ParamKind::Integer);
                proof {
                    assert(ps@ =~= seq![ParamKind::Text, ParamKind::Integer, ParamKind::Integer]);
                }
                if !check_args(&ps, args) {
                    return (Instance::Validator(v), Err(InvokeError::ArityOrTypeMismatch));
                }
                let text = match &args[0] {
                    Value::Text(t) => t,
                    _ => unreached(),
                };
                let mn = match &args[1] {
                    Value::Int(i) => *i,
                    _ => unreached(),
                };
                let mx = match &args[2] {
                    Value::Int(i) => *i,
                    _ => unreached(),
                };
                let len = text.len();
                let ok_min = mn <= 0 || (mn as u64) <= (len as u64);
                let ok_max = mx >= 0 && (len as u64) <= (mx as u64);
                let b = ok_min && ok_max;
                (
                    Instance::Validator(v),
                    Ok(InvokeOutcome { result: Value::Bool(b), emission: None }),
                )
            } else if bytes_eq(op, &lit("validate_alphanumeric")) {
                let mut ps: Vec<ParamKind> = Vec::new();
                ps.push(ParamKind::Text);
                proof {
                    assert(ps@ =~= seq![ParamKind::Text]);
                }
                if !check_args(&ps, args) {
                    return (Instance::Validator(v), Err(InvokeError::ArityOrTypeMismatch));
                }
                let text = match &args[0] {
                    Value::Text(t) => t,
                    _ => unreached(),
                };
                let b = match bytes_as_str(text) {
                    Some(s) => v.validate_alphanumeric(s),
                    None => false,
                };
                (
                    Instance::Validator(v),
                    Ok(InvokeOutcome { result: Value::Bool(b), emission: None }),
                )
            } else {
                (Instance::Validator(v), Err(InvokeError::UnknownOperation))
            }
        },
    }
}

} // verus!
