//! Binding the actuals of a subroutine call to its formals: the named
//! argument reorder (`.b(x)`), and the fill of omitted actuals by their
//! default values.

use vstd::prelude::*;
use vstd::string::StringExecFns;
use crate::ast::{Expr, TfPort};
use crate::elab::{Elaborator, MsgCode, Severity};

verus! {

// ── which names an expression reads ─────────────────────────────────────

/// Does `e` read the plain name `k` anywhere?
pub open spec fn mentions(e: Expr, k: Seq<char>) -> bool
    decreases e,
{
    match e {
        Expr::Ident(p) => p.segments@.len() == 1 && p.segments@[0]@ == k,
        Expr::Call { args, .. } => any_mentions(args@, k),
        Expr::Paren(inner) => mentions(*inner, k),
        Expr::Unary { operand, .. } => mentions(*operand, k),
        Expr::Binary { lhs, rhs, .. } => mentions(*lhs, k) || mentions(*rhs, k),
        Expr::Ternary { cond, then_e, else_e } => mentions(*cond, k) || mentions(*then_e, k) || mentions(
            *else_e,
            k,
        ),
        Expr::BitSelect { base, index } => mentions(*base, k) || mentions(*index, k),
        Expr::PartSelect { base, msb, lsb } => mentions(*base, k) || mentions(*msb, k) || mentions(*lsb, k),
        Expr::IndexedPart { base, offset, width, .. } => mentions(*base, k) || mentions(*offset, k)
            || mentions(*width, k),
        Expr::Concat(parts) => any_mentions(parts@, k),
        Expr::Replicate { count, value } => mentions(*count, k) || any_mentions(value@, k),
        Expr::SysCall { args, .. } => any_mentions(args@, k),
        Expr::Cast { expr, .. } => mentions(*expr, k),
        Expr::MinTypMax { min, typ, max } => mentions(*min, k) || mentions(*typ, k) || mentions(*max, k),
        Expr::AssignPattern(parts) => any_mentions(parts@, k),
        Expr::NamedArg { value, .. } => match value {
            Some(v) => mentions(*v, k),
            None => false,
        },
        _ => false,
    }
}

pub open spec fn any_mentions(es: Seq<Expr>, k: Seq<char>) -> bool
    decreases es,
{
    if es.len() == 0 {
        false
    } else {
        any_mentions(es.drop_last(), k) || mentions(es.last(), k)
    }
}

#[verifier::loop_isolation(false)]
fn exprs_mention(es: &Vec<Expr>, k: &String, Ghost(whole): Ghost<Expr>) -> (r: bool)
    requires
        forall|j: int| 0 <= j < es@.len() ==> decreases_to!(whole => #[trigger] es@[j]),
    ensures
        r == any_mentions(es@, k@),
    decreases whole, 0nat,
{
    let mut i: usize = 0;
    let mut r = false;
    assert(es@.take(0) =~= Seq::<Expr>::empty());
    while i < es.len()
        invariant
            i <= es@.len(),
            r == any_mentions(es@.take(i as int), k@),
        decreases es@.len() - i,
    {
        assert(es@.take(i as int + 1).drop_last() =~= es@.take(i as int));
        let m = expr_mentions(&es[i], k);
        r = r || m;
        i += 1;
    }
    assert(es@.take(i as int) =~= es@);
    r
}

/// Does `e` read the plain name `k` anywhere?
pub fn expr_mentions(e: &Expr, k: &String) -> (r: bool)
    ensures
        r == mentions(*e, k@),
    decreases *e, 1nat,
{
    match e {
        Expr::Ident(p) => p.segments.len() == 1 && p.segments[0] == *k,
        Expr::Call { args, .. } | Expr::SysCall { args, .. } => {
            proof {
                assert forall|j: int| 0 <= j < args@.len() implies decreases_to!(*e => #[trigger] args@[j]) by {
                    assert(decreases_to!(*e => args@[j]));
                }
            }
            exprs_mention(args, k, Ghost(*e))
        },
        Expr::Paren(inner) => expr_mentions(inner, k),
        Expr::Unary { operand, .. } => expr_mentions(operand, k),
        Expr::Binary { lhs, rhs, .. } => {
            let a = expr_mentions(lhs, k);
            let b = expr_mentions(rhs, k);
            a || b
        },
        Expr::Ternary { cond, then_e, else_e } => {
            let a = expr_mentions(cond, k);
            let b = expr_mentions(then_e, k);
            let c = expr_mentions(else_e, k);
            a || b || c
        },
        Expr::BitSelect { base, index } => {
            let a = expr_mentions(base, k);
            let b = expr_mentions(index, k);
            a || b
        },
        Expr::PartSelect { base, msb, lsb } => {
            let a = expr_mentions(base, k);
            let b = expr_mentions(msb, k);
            let c = expr_mentions(lsb, k);
            a || b || c
        },
        Expr::IndexedPart { base, offset, width, .. } => {
            let a = expr_mentions(base, k);
            let b = expr_mentions(offset, k);
            let c = expr_mentions(width, k);
            a || b || c
        },
        Expr::Concat(parts) | Expr::AssignPattern(parts) => {
            proof {
                assert forall|j: int| 0 <= j < parts@.len() implies decreases_to!(*e => #[trigger] parts@[j]) by {
                    assert(decreases_to!(*e => parts@[j]));
                }
            }
            exprs_mention(parts, k, Ghost(*e))
        },
        Expr::Replicate { count, value } => {
            let a = expr_mentions(count, k);
            proof {
                assert forall|j: int| 0 <= j < value@.len() implies decreases_to!(*e => #[trigger] value@[j]) by {
                    assert(decreases_to!(*e => value@[j]));
                }
            }
            let b = exprs_mention(value, k, Ghost(*e));
            a || b
        },
        Expr::Cast { expr, .. } => expr_mentions(expr, k),
        Expr::MinTypMax { min, typ, max } => {
            let a = expr_mentions(min, k);
            let b = expr_mentions(typ, k);
            let c = expr_mentions(max, k);
            a || b || c
        },
        Expr::NamedArg { value, .. } => match value {
            Some(v) => expr_mentions(v, k),
            None => false,
        },
        _ => false,
    }
}

/// Does `d` read the name of one of the formals `ports`?
pub open spec fn reads_a_formal(ports: Seq<TfPort>, d: Expr) -> bool {
    exists|q: int| 0 <= q < ports.len() && #[trigger] mentions(d, ports[q].name@)
}

fn default_reads_a_formal(ports: &Vec<TfPort>, d: &Expr) -> (r: bool)
    ensures
        r == reads_a_formal(ports@, *d),
{
    let mut q: usize = 0;
    while q < ports.len()
        invariant
            q <= ports@.len(),
            forall|t: int| 0 <= t < q ==> !#[trigger] mentions(*d, ports@[t].name@),
        decreases ports@.len() - q,
    {
        if expr_mentions(d, &ports[q].name) {
            return true;
        }
        q += 1;
    }
    false
}

// ── the diagnostics ─────────────────────────────────────────────────────

pub open spec fn msg_no_formal(f: Seq<char>, x: Seq<char>) -> Seq<char> {
    "call to `"@ + f + "`: no formal named `"@ + x + "`"@
}

pub open spec fn msg_bound_twice(f: Seq<char>, x: Seq<char>) -> Seq<char> {
    "call to `"@ + f + "`: formal `"@ + x + "` is bound more than once"@
}

pub open spec fn msg_no_default(f: Seq<char>, x: Seq<char>) -> Seq<char> {
    "call to `"@ + f + "`: `."@ + x + "()` has no default value"@
}

pub open spec fn msg_positional_after_named(f: Seq<char>) -> Seq<char> {
    "call to `"@ + f + "`: a positional argument cannot follow a named one"@
}

pub open spec fn msg_too_many(f: Seq<char>) -> Seq<char> {
    "call to `"@ + f + "`: too many positional arguments"@
}

pub open spec fn msg_default_scope(f: Seq<char>, x: Seq<char>) -> Seq<char> {
    "call to `"@ + f + "`: the omitted actual for formal `"@ + x
        + "` takes a DEFAULT value whose names bind differently at this call site than where `"@ + f
        + "` is declared — a default is evaluated in the subroutine's own scope, so pass the argument explicitly here, or make the default a literal / `pkg::` constant"@
}

pub open spec fn msg_default_reads_formal(f: Seq<char>) -> Seq<char> {
    "function/task `"@ + f + "`: a default argument value that references another formal is unsupported"@
}

pub open spec fn msg_missing(f: Seq<char>, x: Seq<char>) -> Seq<char> {
    "call to `"@ + f + "`: missing actual for formal `"@ + x + "` (no default value)"@
}

pub open spec fn msg_missing_fill(f: Seq<char>, x: Seq<char>) -> Seq<char> {
    "function/task `"@ + f + "`: missing actual for formal `"@ + x + "` (no default value)"@
}

/// The decimal spelling of `n`.
pub open spec fn dec(n: nat) -> Seq<char>
    decreases n,
{
    if n < 10 {
        seq![digit(n)]
    } else {
        dec(n / 10) + seq![digit(n % 10)]
    }
}

pub open spec fn digit(d: nat) -> char {
    if d == 0 { '0' } else if d == 1 { '1' } else if d == 2 { '2' } else if d == 3 { '3' } else if d == 4 {
        '4'
    } else if d == 5 { '5' } else if d == 6 { '6' } else if d == 7 { '7' } else if d == 8 { '8' } else { '9' }
}

pub open spec fn msg_arity(f: Seq<char>, nargs: nat, nports: nat) -> Seq<char> {
    "function/task `"@ + f + "`: "@ + dec(nargs) + " args for "@ + dec(nports) + " formals"@
}

fn digit_str(d: usize) -> (s: &'static str)
    requires
        d < 10,
    ensures
        s@ == seq![digit(d as nat)],
{
    proof {
        reveal_strlit("0");
        reveal_strlit("1");
        reveal_strlit("2");
        reveal_strlit("3");
        reveal_strlit("4");
        reveal_strlit("5");
        reveal_strlit("6");
        reveal_strlit("7");
        reveal_strlit("8");
        reveal_strlit("9");
    }
    if d == 0 {
        "0"
    } else if d == 1 {
        "1"
    } else if d == 2 {
        "2"
    } else if d == 3 {
        "3"
    } else if d == 4 {
        "4"
    } else if d == 5 {
        "5"
    } else if d == 6 {
        "6"
    } else if d == 7 {
        "7"
    } else if d == 8 {
        "8"
    } else {
        "9"
    }
}

/// Append the decimal spelling of `n`.
fn append_dec(s: &mut String, n: usize)
    ensures
        final(s)@ == old(s)@ + dec(n as nat),
    decreases n,
{
    if n >= 10 {
        append_dec(s, n / 10);
    }
    s.append(digit_str(n % 10));
}

// ── binding ─────────────────────────────────────────────────────────────

/// The index of the first formal named `k`.
pub open spec fn port_index(ports: Seq<TfPort>, k: Seq<char>) -> Option<int>
    decreases ports.len(),
{
    if ports.len() == 0 {
        None
    } else if ports.last().name@ == k && port_index(ports.drop_last(), k) is None {
        Some(ports.len() - 1)
    } else {
        port_index(ports.drop_last(), k)
    }
}

/// What the actuals `args` bind, in order: per formal the expression bound
/// to it, whether a named actual was seen, and how many positional ones;
/// or the diagnostic of the first actual that cannot bind. A named actual
/// with an empty value (`.x()`) binds the formal's default.
pub open spec fn bind_args(ports: Seq<TfPort>, args: Seq<Expr>, f: Seq<char>) -> Result<
    (Seq<Option<Expr>>, bool, int),
    Seq<char>,
>
    decreases args.len(),
{
    if args.len() == 0 {
        Ok((Seq::new(ports.len(), |i: int| None), false, 0))
    } else {
        match bind_args(ports, args.drop_last(), f) {
            Err(m) => Err(m),
            Ok((slots, seen_named, pos)) => match args.last() {
                Expr::NamedArg { formal, value } => match port_index(ports, formal@) {
                    None => Err(msg_no_formal(f, formal@)),
                    Some(idx) => if slots[idx] is Some {
                        Err(msg_bound_twice(f, formal@))
                    } else {
                        match value {
                            Some(v) => Ok((slots.update(idx, Some(*v)), true, pos)),
                            None => match ports[idx].default {
                                Some(d) => Ok((slots.update(idx, Some(d)), true, pos)),
                                None => Err(msg_no_default(f, formal@)),
                            },
                        }
                    },
                },
                a => if seen_named {
                    Err(msg_positional_after_named(f))
                } else if pos >= ports.len() {
                    Err(msg_too_many(f))
                } else {
                    Ok((slots.update(pos, Some(a)), false, pos + 1))
                },
            },
        }
    }
}

/// The actuals of the first `k` formals: the bound expression, else the
/// formal's default (refused when `scope_ok` says its names bind
/// differently at the call site, or when it reads a formal), else the
/// diagnostic of a missing actual.
pub open spec fn fill_slots(
    ports: Seq<TfPort>,
    slots: Seq<Option<Expr>>,
    scope_ok: Seq<bool>,
    f: Seq<char>,
    k: int,
) -> Result<Seq<Expr>, Seq<char>>
    decreases k,
{
    if k <= 0 {
        Ok(Seq::empty())
    } else {
        match fill_slots(ports, slots, scope_ok, f, k - 1) {
            Err(m) => Err(m),
            Ok(out) => {
                let i = k - 1;
                match slots[i] {
                    Some(e) => Ok(out.push(e)),
                    None => match ports[i].default {
                        Some(d) => if !scope_ok[i] {
                            Err(msg_default_scope(f, ports[i].name@))
                        } else if reads_a_formal(ports, d) {
                            Err(msg_default_reads_formal(f))
                        } else {
                            Ok(out.push(d))
                        },
                        None => Err(msg_missing(f, ports[i].name@)),
                    },
                }
            },
        }
    }
}

/// The actual of every formal, in formal order, or the diagnostic of the
/// first failure.
pub open spec fn resolve_args(ports: Seq<TfPort>, args: Seq<Expr>, scope_ok: Seq<bool>, f: Seq<char>) -> Result<
    Seq<Expr>,
    Seq<char>,
> {
    match bind_args(ports, args, f) {
        Err(m) => Err(m),
        Ok((slots, _, _)) => fill_slots(ports, slots, scope_ok, f, ports.len() as int),
    }
}

/// The effective actuals when only trailing formals are omitted: the
/// actuals, then the defaults of the formals after them.
pub open spec fn fill_defaults(ports: Seq<TfPort>, args: Seq<Expr>, scope_ok: Seq<bool>, f: Seq<char>) -> Result<
    Seq<Expr>,
    Seq<char>,
> {
    if args.len() > ports.len() {
        Err(msg_arity(f, args.len(), ports.len()))
    } else {
        fill_tail(ports, args, scope_ok, f, ports.len() as int)
    }
}

/// The effective actuals of the first `k` formals, `k` at least the number
/// of actuals.
pub open spec fn fill_tail(ports: Seq<TfPort>, args: Seq<Expr>, scope_ok: Seq<bool>, f: Seq<char>, k: int) -> Result<
    Seq<Expr>,
    Seq<char>,
>
    decreases k,
{
    if k <= args.len() {
        Ok(args)
    } else {
        match fill_tail(ports, args, scope_ok, f, k - 1) {
            Err(m) => Err(m),
            Ok(out) => {
                let i = k - 1;
                match ports[i].default {
                    Some(d) => if !scope_ok[i] {
                        Err(msg_default_scope(f, ports[i].name@))
                    } else if reads_a_formal(ports, d) {
                        Err(msg_default_reads_formal(f))
                    } else {
                        Ok(out.push(d))
                    },
                    None => Err(msg_missing_fill(f, ports[i].name@)),
                }
            },
        }
    }
}

/// The references of `v` are to the expressions of `s`, in order.
pub open spec fn refs_are(v: Seq<&Expr>, s: Seq<Expr>) -> bool {
    v.len() == s.len() && forall|i: int| 0 <= i < s.len() ==> *#[trigger] v[i] == s[i]
}

fn cat3(a: &str, b: &str, c: &str) -> (s: String)
    ensures
        s@ == a@ + b@ + c@,
{
    let mut s = String::from_str(a);
    s.append(b);
    s.append(c);
    s
}

fn cat5(a: &str, b: &str, c: &str, d: &str, e: &str) -> (s: String)
    ensures
        s@ == a@ + b@ + c@ + d@ + e@,
{
    let mut s = String::from_str(a);
    s.append(b);
    s.append(c);
    s.append(d);
    s.append(e);
    s
}

impl Elaborator {
    /// Only the diagnostics changed: `m` was reported as one error.
    pub open spec fn reported(&self, old: &Elaborator, m: Seq<char>) -> bool {
        &&& self.had_error
        &&& self.diags@.len() == old.diags@.len() + 1
        &&& self.diags@.take(old.diags@.len() as int) == old.diags@
        &&& self.diags@.last().severity == Severity::Error
        &&& self.diags@.last().code == MsgCode::ElabUnsupported
        &&& self.diags@.last().message@ == m
        &&& self.exprs == old.exprs
        &&& self.consts == old.consts
        &&& self.nets == old.nets
        &&& self.func_metas == old.func_metas
        &&& self.canon == old.canon
        &&& self.repeatable == old.repeatable
        &&& self.tables == old.tables
        &&& self.bodies == old.bodies
        &&& self.size_cast_real_reported == old.size_cast_real_reported
    }

    fn report(&mut self, msg: String)
        ensures
            final(self).reported(old(self), msg@),
    {
        let ghost d0 = self.diags@;
        self.error(MsgCode::ElabUnsupported, msg.as_str());
        proof {
            assert(self.diags@.take(d0.len() as int) =~= d0);
        }
    }

    fn first_port(ports: &Vec<TfPort>, k: &String) -> (r: Option<usize>)
        ensures
            match r {
                Some(i) => i < ports@.len() && port_index(ports@, k@) == Some(i as int),
                None => port_index(ports@, k@) is None,
            },
    {
        let mut i: usize = 0;
        while i < ports.len()
            invariant
                i <= ports@.len(),
                port_index(ports@.take(i as int), k@) is None,
            decreases ports@.len() - i,
        {
            assert(ports@.take(i as int + 1).drop_last() =~= ports@.take(i as int));
            if ports[i].name == *k {
                proof {
                    assert(port_index(ports@.take(i as int + 1), k@) == Some(i as int));
                    lemma_port_index_some_extend(ports@, i as int + 1, k@);
                }
                return Some(i);
            }
            i += 1;
        }
        assert(ports@.take(i as int) =~= ports@);
        None
    }

    /// Bind the actuals `args` of a call to `fname` to the formals `ports`:
    /// positional actuals fill the formals in order, a named actual
    /// `.x(v)` binds formal `x` (`.x()` its default), and an omitted actual
    /// takes its formal's default. `scope_ok[i]` tells whether the names of
    /// formal `i`'s default bind at the call site as where `fname` is
    /// declared. The actual of every formal, in formal order; else `None`
    /// with one error saying why (see [`resolve_args`]).
    pub fn resolve_named_args<'a>(
        &mut self,
        fname: &str,
        ports: &'a Vec<TfPort>,
        args: &'a Vec<Expr>,
        scope_ok: &Vec<bool>,
    ) -> (r: Option<Vec<&'a Expr>>)
        requires
            scope_ok@.len() == ports@.len(),
        ensures
            match resolve_args(ports@, args@, scope_ok@, fname@) {
                Ok(out) => r matches Some(v) && refs_are(v@, out) && *final(self) == *old(self),
                Err(m) => r is None && final(self).reported(old(self), m),
            },
    {
        let n = ports.len();
        let mut slots: Vec<Option<&'a Expr>> = Vec::new();
        let mut i: usize = 0;
        while i < n
            invariant
                i <= n,
                n == ports@.len(),
                slots@.len() == i,
                forall|j: int| 0 <= j < i ==> slots@[j] is None,
            decreases n - i,
        {
            slots.push(None);
            i += 1;
        }
        let mut seen_named = false;
        let mut pos: usize = 0;
        let mut k: usize = 0;
        proof {
            assert(args@.take(0) =~= Seq::<Expr>::empty());
            let s0 = Seq::<Option<Expr>>::new(ports@.len(), |i: int| None);
            assert(slots_view(slots@) =~= s0);
        }
        while k < args.len()
            invariant
                k <= args@.len(),
                n == ports@.len(),
                slots@.len() == n,
                *self == *old(self),
                bind_args(ports@, args@.take(k as int), fname@) == Ok::<
                    (Seq<Option<Expr>>, bool, int),
                    Seq<char>,
                >((slots_view(slots@), seen_named, pos as int)),
                pos <= k,
            decreases args@.len() - k,
        {
            assert(args@.take(k as int + 1).drop_last() =~= args@.take(k as int));
            assert(args@.take(k as int + 1).last() == args@[k as int]);
            let a = &args[k];
            match a {
                Expr::NamedArg { formal, value } => {
                    seen_named = true;
                    let idx = match Self::first_port(ports, formal) {
                        Some(idx) => idx,
                        None => {
                            self.report(cat5("call to `", fname, "`: no formal named `", formal.as_str(), "`"));
                            proof {
                                lemma_bind_err_prefix(ports@, args@, k as int + 1, fname@);
                            }
                            return None;
                        },
                    };
                    if slots[idx].is_some() {
                        assert(slots_view(slots@)[idx as int] is Some);
                        self.report(
                            cat5("call to `", fname, "`: formal `", formal.as_str(), "` is bound more than once"),
                        );
                        proof {
                            lemma_bind_err_prefix(ports@, args@, k as int + 1, fname@);
                        }
                        return None;
                    }
                    match value {
                        Some(v) => {
                            let ghost before = slots@;
                            slots.set(idx, Some(&**v));
                            proof {
                                assert(slots_view(slots@) =~= slots_view(before).update(idx as int, Some(**v)));
                            }
                        },
                        None => match &ports[idx].default {
                            Some(d) => {
                                let ghost before = slots@;
                                slots.set(idx, Some(d));
                                proof {
                                    assert(slots_view(slots@) =~= slots_view(before).update(idx as int, Some(*d)));
                                }
                            },
                            None => {
                                self.report(cat5("call to `", fname, "`: `.", formal.as_str(), "()` has no default value"));
                                proof {
                                    lemma_bind_err_prefix(ports@, args@, k as int + 1, fname@);
                                }
                                return None;
                            },
                        },
                    }
                },
                _ => {
                    if seen_named {
                        self.report(cat3("call to `", fname, "`: a positional argument cannot follow a named one"));
                        proof {
                            lemma_bind_err_prefix(ports@, args@, k as int + 1, fname@);
                        }
                        return None;
                    }
                    if pos >= n {
                        self.report(cat3("call to `", fname, "`: too many positional arguments"));
                        proof {
                            lemma_bind_err_prefix(ports@, args@, k as int + 1, fname@);
                        }
                        return None;
                    }
                    let ghost before = slots@;
                    slots.set(pos, Some(a));
                    proof {
                        assert(slots_view(slots@) =~= slots_view(before).update(pos as int, Some(*a)));
                    }
                    pos += 1;
                },
            }
            k += 1;
        }
        assert(args@.take(k as int) =~= args@);
        let ghost bound = slots_view(slots@);
        let mut out: Vec<&'a Expr> = Vec::new();
        let mut i: usize = 0;
        while i < n
            invariant
                i <= n,
                n == ports@.len(),
                slots@.len() == n,
                scope_ok@.len() == n,
                bound == slots_view(slots@),
                *self == *old(self),
                bind_args(ports@, args@, fname@) matches Ok((s, _, _)) && s == bound,
                fill_slots(ports@, bound, scope_ok@, fname@, i as int) matches Ok(o) && refs_are(out@, o),
            decreases n - i,
        {
            match slots[i] {
                Some(e) => {
                    out.push(e);
                },
                None => match &ports[i].default {
                    Some(def) => {
                        if !scope_ok[i] {
                            let mut m = cat5(
                                "call to `",
                                fname,
                                "`: the omitted actual for formal `",
                                ports[i].name.as_str(),
                                "` takes a DEFAULT value whose names bind differently at this call site than where `",
                            );
                            m.append(fname);
                            m.append(
                                "` is declared — a default is evaluated in the subroutine's own scope, so pass the argument explicitly here, or make the default a literal / `pkg::` constant",
                            );
                            self.report(m);
                            proof {
                                lemma_fill_err_prefix(ports@, bound, scope_ok@, fname@, i as int + 1);
                            }
                            return None;
                        }
                        if default_reads_a_formal(ports, def) {
                            self.report(
                                cat3(
                                    "function/task `",
                                    fname,
                                    "`: a default argument value that references another formal is unsupported",
                                ),
                            );
                            proof {
                                lemma_fill_err_prefix(ports@, bound, scope_ok@, fname@, i as int + 1);
                            }
                            return None;
                        }
                        out.push(def);
                    },
                    None => {
                        self.report(
                            cat5("call to `", fname, "`: missing actual for formal `", ports[i].name.as_str(), "` (no default value)"),
                        );
                        proof {
                            lemma_fill_err_prefix(ports@, bound, scope_ok@, fname@, i as int + 1);
                        }
                        return None;
                    },
                },
            }
            i += 1;
        }
        Some(out)
    }
}

impl Elaborator {
    /// The effective actuals of a call to `fname` whose omitted actuals are
    /// all trailing: the actuals, then the defaults of the formals after
    /// them (`scope_ok` as for [`Self::resolve_named_args`]); else `None`
    /// with one error saying why (see [`fill_defaults`]).
    pub fn fill_default_args<'a>(
        &mut self,
        fname: &str,
        ports: &'a Vec<TfPort>,
        args: &'a Vec<Expr>,
        scope_ok: &Vec<bool>,
    ) -> (r: Option<Vec<&'a Expr>>)
        requires
            scope_ok@.len() == ports@.len(),
        ensures
            match fill_defaults(ports@, args@, scope_ok@, fname@) {
                Ok(out) => r matches Some(v) && refs_are(v@, out) && *final(self) == *old(self),
                Err(m) => r is None && final(self).reported(old(self), m),
            },
    {
        if args.len() > ports.len() {
            let mut m = cat3("function/task `", fname, "`: ");
            append_dec(&mut m, args.len());
            m.append(" args for ");
            append_dec(&mut m, ports.len());
            m.append(" formals");
            self.report(m);
            return None;
        }
        let mut eff: Vec<&'a Expr> = Vec::new();
        let mut j: usize = 0;
        while j < args.len()
            invariant
                j <= args@.len(),
                eff@.len() == j,
                forall|t: int| 0 <= t < j ==> *#[trigger] eff@[t] == args@[t],
            decreases args@.len() - j,
        {
            eff.push(&args[j]);
            j += 1;
        }
        let mut i: usize = args.len();
        while i < ports.len()
            invariant
                args@.len() <= i <= ports@.len(),
                scope_ok@.len() == ports@.len(),
                *self == *old(self),
                fill_tail(ports@, args@, scope_ok@, fname@, i as int) matches Ok(o) && refs_are(eff@, o),
            decreases ports@.len() - i,
        {
            match &ports[i].default {
                Some(def) => {
                    if !scope_ok[i] {
                        let mut m = cat5(
                            "call to `",
                            fname,
                            "`: the omitted actual for formal `",
                            ports[i].name.as_str(),
                            "` takes a DEFAULT value whose names bind differently at this call site than where `",
                        );
                        m.append(fname);
                        m.append(
                            "` is declared — a default is evaluated in the subroutine's own scope, so pass the argument explicitly here, or make the default a literal / `pkg::` constant",
                        );
                        self.report(m);
                        proof {
                            lemma_tail_err_prefix(ports@, args@, scope_ok@, fname@, i as int + 1);
                        }
                        return None;
                    }
                    if default_reads_a_formal(ports, def) {
                        self.report(
                            cat3(
                                "function/task `",
                                fname,
                                "`: a default argument value that references another formal is unsupported",
                            ),
                        );
                        proof {
                            lemma_tail_err_prefix(ports@, args@, scope_ok@, fname@, i as int + 1);
                        }
                        return None;
                    }
                    eff.push(def);
                },
                None => {
                    self.report(
                        cat5("function/task `", fname, "`: missing actual for formal `", ports[i].name.as_str(), "` (no default value)"),
                    );
                    proof {
                        lemma_tail_err_prefix(ports@, args@, scope_ok@, fname@, i as int + 1);
                    }
                    return None;
                },
            }
            i += 1;
        }
        Some(eff)
    }
}

proof fn lemma_tail_err_prefix(ports: Seq<TfPort>, args: Seq<Expr>, ok: Seq<bool>, f: Seq<char>, j: int)
    requires
        args.len() <= j <= ports.len(),
        fill_tail(ports, args, ok, f, j) is Err,
    ensures
        fill_tail(ports, args, ok, f, ports.len() as int) == fill_tail(ports, args, ok, f, j),
    decreases ports.len() - j,
{
    if j < ports.len() {
        lemma_tail_err_prefix(ports, args, ok, f, j + 1);
    }
}

/// The expressions the optional references point to.
pub open spec fn slots_view(s: Seq<Option<&Expr>>) -> Seq<Option<Expr>> {
    Seq::new(
        s.len(),
        |i: int|
            match s[i] {
                Some(e) => Some(*e),
                None => None,
            },
    )
}

proof fn lemma_port_index_some_extend(ports: Seq<TfPort>, j: int, k: Seq<char>)
    requires
        0 < j <= ports.len(),
        port_index(ports.take(j), k) is Some,
    ensures
        port_index(ports, k) == port_index(ports.take(j), k),
    decreases ports.len() - j,
{
    if j == ports.len() {
        assert(ports.take(j) =~= ports);
    } else {
        assert(ports.take(j + 1).drop_last() =~= ports.take(j));
        lemma_port_index_some_extend(ports, j + 1, k);
    }
}

proof fn lemma_bind_err_prefix(ports: Seq<TfPort>, args: Seq<Expr>, j: int, f: Seq<char>)
    requires
        0 <= j <= args.len(),
        bind_args(ports, args.take(j), f) is Err,
    ensures
        bind_args(ports, args, f) == bind_args(ports, args.take(j), f),
    decreases args.len() - j,
{
    if j == args.len() {
        assert(args.take(j) =~= args);
    } else {
        assert(args.take(j + 1).drop_last() =~= args.take(j));
        lemma_bind_err_prefix(ports, args, j + 1, f);
    }
}

proof fn lemma_fill_err_prefix(ports: Seq<TfPort>, slots: Seq<Option<Expr>>, ok: Seq<bool>, f: Seq<char>, j: int)
    requires
        0 <= j <= ports.len(),
        fill_slots(ports, slots, ok, f, j) is Err,
    ensures
        fill_slots(ports, slots, ok, f, ports.len() as int) == fill_slots(ports, slots, ok, f, j),
    decreases ports.len() - j,
{
    if j < ports.len() {
        lemma_fill_err_prefix(ports, slots, ok, f, j + 1);
    }
}

// ── laws ─────────────────────────────────────────────────────────────────

/// The slots after binding the first `k` of all-positional actuals.
pub open spec fn positional_slots(n: int, args: Seq<Expr>, k: int) -> Seq<Option<Expr>> {
    Seq::new(n as nat, |i: int| if i < k { Some(args[i]) } else { None })
}

proof fn lemma_bind_positional(ports: Seq<TfPort>, args: Seq<Expr>, f: Seq<char>, k: int)
    requires
        0 <= k <= args.len(),
        args.len() <= ports.len(),
        forall|a: int| 0 <= a < args.len() ==> !(#[trigger] args[a] is NamedArg),
    ensures
        bind_args(ports, args.take(k), f) == Ok::<(Seq<Option<Expr>>, bool, int), Seq<char>>(
            (positional_slots(ports.len() as int, args, k), false, k),
        ),
    decreases k,
{
    if k == 0 {
        assert(Seq::<Option<Expr>>::new(ports.len(), |i: int| None) =~= positional_slots(
            ports.len() as int,
            args,
            0,
        ));
    } else {
        lemma_bind_positional(ports, args, f, k - 1);
        assert(args.take(k).drop_last() =~= args.take(k - 1));
        assert(args.take(k).last() == args[k - 1]);
        assert(positional_slots(ports.len() as int, args, k - 1).update(k - 1, Some(args[k - 1]))
            =~= positional_slots(ports.len() as int, args, k));
    }
}

proof fn lemma_fill_all_bound(ports: Seq<TfPort>, args: Seq<Expr>, ok: Seq<bool>, f: Seq<char>, k: int)
    requires
        0 <= k <= ports.len(),
        args.len() == ports.len(),
    ensures
        fill_slots(ports, positional_slots(ports.len() as int, args, ports.len() as int), ok, f, k) == Ok::<
            Seq<Expr>,
            Seq<char>,
        >(args.take(k)),
    decreases k,
{
    if k == 0 {
        assert(args.take(0) =~= Seq::<Expr>::empty());
    } else {
        lemma_fill_all_bound(ports, args, ok, f, k - 1);
        assert(args.take(k - 1).push(args[k - 1]) =~= args.take(k));
    }
}

/// A call whose actuals are all positional, one per formal, binds each
/// formal to its actual, in order.
pub proof fn lemma_positional_actuals_bind_in_order(ports: Seq<TfPort>, args: Seq<Expr>, scope_ok: Seq<bool>, f: Seq<char>)
    requires
        args.len() == ports.len(),
        forall|a: int| 0 <= a < args.len() ==> !(#[trigger] args[a] is NamedArg),
    ensures
        resolve_args(ports, args, scope_ok, f) == Ok::<Seq<Expr>, Seq<char>>(args),
{
    lemma_bind_positional(ports, args, f, args.len() as int);
    assert(args.take(args.len() as int) =~= args);
    lemma_fill_all_bound(ports, args, scope_ok, f, ports.len() as int);
}

/// A call that passes every formal an actual needs no default.
pub proof fn lemma_full_call_needs_no_default(ports: Seq<TfPort>, args: Seq<Expr>, scope_ok: Seq<bool>, f: Seq<char>)
    requires
        args.len() == ports.len(),
    ensures
        fill_defaults(ports, args, scope_ok, f) == Ok::<Seq<Expr>, Seq<char>>(args),
{
}

// ── where a named call puts its actuals ─────────────────────────────────

/// How many actuals come before the first named one.
pub open spec fn leading_positional(args: Seq<Expr>) -> int
    decreases args.len(),
{
    if args.len() == 0 {
        0
    } else {
        let k = leading_positional(args.drop_last());
        if k == args.len() - 1 && !(args.last() is NamedArg) {
            args.len() as int
        } else {
            k
        }
    }
}

/// Some named actual with a value binds formal `i`.
pub open spec fn named_binds(ports: Seq<TfPort>, args: Seq<Expr>, i: int) -> bool {
    exists|j: int|
        0 <= j < args.len() && (#[trigger] args[j] matches Expr::NamedArg { formal, value } && value is Some
            && port_index(ports, formal@) == Some(i))
}

/// Some named actual (with a value or not) names formal `i`.
pub open spec fn named_targets(ports: Seq<TfPort>, args: Seq<Expr>, i: int) -> bool {
    exists|j: int|
        0 <= j < args.len() && (#[trigger] args[j] matches Expr::NamedArg { formal, .. } && port_index(ports, formal@)
            == Some(i))
}

proof fn lemma_port_index(ports: Seq<TfPort>, k: Seq<char>)
    ensures
        port_index(ports, k) matches Some(i) ==> 0 <= i < ports.len() && ports[i].name@ == k,
    decreases ports.len(),
{
    if ports.len() > 0 {
        lemma_port_index(ports.drop_last(), k);
    }
}

proof fn lemma_leading_bound(args: Seq<Expr>)
    ensures
        0 <= leading_positional(args) <= args.len(),
        forall|j: int| 0 <= j < leading_positional(args) ==> !(#[trigger] args[j] is NamedArg),
        leading_positional(args) < args.len() ==> args[leading_positional(args)] is NamedArg,
    decreases args.len(),
{
    if args.len() > 0 {
        lemma_leading_bound(args.drop_last());
        let k = leading_positional(args.drop_last());
        assert forall|j: int| 0 <= j < leading_positional(args) implies !(#[trigger] args[j] is NamedArg) by {
            if j < args.len() - 1 {
                assert(args.drop_last()[j] == args[j]);
            }
        }
        if leading_positional(args) < args.len() {
            if k < args.len() - 1 {
                assert(args.drop_last()[k] == args[k]);
            }
        }
    }
}

/// What a successful binding holds: the leading positional actuals in the
/// first slots, each named actual in its formal's slot (a `.x()` binding
/// the default), and nothing anywhere else.
proof fn lemma_bind_shape(ports: Seq<TfPort>, args: Seq<Expr>, f: Seq<char>)
    requires
        bind_args(ports, args, f) is Ok,
    ensures
        ({
            let (slots, seen, pos) = bind_args(ports, args, f)->Ok_0;
            &&& slots.len() == ports.len()
            &&& pos == leading_positional(args)
            &&& pos <= ports.len()
            &&& seen == (pos < args.len())
            &&& forall|i: int| 0 <= i < pos ==> #[trigger] slots[i] == Some(args[i])
            &&& forall|j: int|
                0 <= j < args.len() ==> (#[trigger] args[j] matches Expr::NamedArg { formal, value } ==> (
                port_index(ports, formal@) matches Some(idx) && slots[idx] is Some && slots[idx] == match value {
                    Some(v) => Some(*v),
                    None => ports[idx].default,
                }))
            &&& forall|i: int|
                0 <= i < ports.len() && #[trigger] slots[i] is Some ==> i < pos || named_targets(ports, args, i)
        }),
    decreases args.len(),
{
    if args.len() > 0 {
        let pre = args.drop_last();
        lemma_bind_shape(ports, pre, f);
        lemma_leading_bound(pre);
        let (slots0, seen0, pos0) = bind_args(ports, pre, f)->Ok_0;
        let (slots, seen, pos) = bind_args(ports, args, f)->Ok_0;
        let n = args.len() - 1;
        assert forall|j: int| 0 <= j < n implies #[trigger] pre[j] == args[j] by {}
        match args.last() {
            Expr::NamedArg { formal, value } => {
                lemma_port_index(ports, formal@);
                let idx = port_index(ports, formal@)->Some_0;
                assert(slots0[idx] is None);
                assert(slots == slots0.update(idx, match value {
                    Some(v) => Some(*v),
                    None => ports[idx].default,
                }));
                assert(idx >= pos0);
                assert forall|j: int|
                    0 <= j < args.len() implies (#[trigger] args[j] matches Expr::NamedArg { formal, value } ==> (
                    port_index(ports, formal@) matches Some(idx2) && slots[idx2] is Some && slots[idx2] == match value {
                        Some(v) => Some(*v),
                        None => ports[idx2].default,
                    })) by {
                    if j < n {
                        assert(pre[j] == args[j]);
                        if let Expr::NamedArg { formal: f2, .. } = args[j] {
                            lemma_port_index(ports, f2@);
                            let idx2 = port_index(ports, f2@)->Some_0;
                            assert(slots0[idx2] is Some);
                            assert(idx2 != idx);
                        }
                    }
                }
                assert forall|i: int| 0 <= i < ports.len() && #[trigger] slots[i] is Some implies i < pos || named_targets(ports, args, i) by {
                    if i == idx {
                        assert(args[n] matches Expr::NamedArg { formal: f3, .. } && port_index(ports, f3@) == Some(i));
                    } else if !(i < pos) {
                        assert(slots0[i] is Some);
                        let j = choose|j: int| 0 <= j < pre.len() && (#[trigger] pre[j] matches Expr::NamedArg { formal, .. }
                            && port_index(ports, formal@) == Some(i));
                        assert(args[j] == pre[j]);
                    }
                }
            },
            a => {
                assert(!seen0);
                assert(pos0 == n);
                assert(slots == slots0.update(pos0, Some(a)));
                assert forall|i: int| 0 <= i < ports.len() && #[trigger] slots[i] is Some implies i < pos || named_targets(ports, args, i) by {
                    if i != pos0 {
                        assert(slots0[i] is Some);
                        if !(i < pos0) {
                            let j = choose|j: int| 0 <= j < pre.len() && (#[trigger] pre[j] matches Expr::NamedArg { formal, .. }
                                && port_index(ports, formal@) == Some(i));
                            assert(!(pre[j] is NamedArg));
                        }
                    }
                }
                assert forall|j: int| 0 <= j < args.len() implies (#[trigger] args[j] matches Expr::NamedArg { formal, value } ==> (
                    port_index(ports, formal@) matches Some(idx2) && slots[idx2] is Some && slots[idx2] == match value {
                        Some(v) => Some(*v),
                        None => ports[idx2].default,
                    })) by {
                    if j < n {
                        assert(pre[j] == args[j]);
                        assert(!(pre[j] is NamedArg));
                    }
                }
            },
        }
    }
}

proof fn lemma_fill_shape(ports: Seq<TfPort>, slots: Seq<Option<Expr>>, scope_ok: Seq<bool>, f: Seq<char>, k: int)
    requires
        0 <= k,
        fill_slots(ports, slots, scope_ok, f, k) is Ok,
    ensures
        ({
            let out = fill_slots(ports, slots, scope_ok, f, k)->Ok_0;
            &&& out.len() == k
            &&& forall|i: int| 0 <= i < k ==> match #[trigger] slots[i] {
                Some(e) => out[i] == e,
                None => ports[i].default matches Some(d) && out[i] == d,
            }
        }),
    decreases k,
{
    if k > 0 {
        lemma_fill_shape(ports, slots, scope_ok, f, k - 1);
    }
}

/// A call that binds is read as written: the actuals before the first
/// named one go to the first formals in order, each named actual with a
/// value goes to the formal it names, and every other formal (a `.x()`
/// among them) takes its default.
pub proof fn lemma_named_call_places_actuals(ports: Seq<TfPort>, args: Seq<Expr>, scope_ok: Seq<bool>, f: Seq<char>)
    requires
        resolve_args(ports, args, scope_ok, f) is Ok,
    ensures
        ({
            let out = resolve_args(ports, args, scope_ok, f)->Ok_0;
            &&& out.len() == ports.len()
            &&& forall|i: int| 0 <= i < leading_positional(args) ==> #[trigger] out[i] == args[i]
            &&& forall|j: int|
                0 <= j < args.len() ==> (#[trigger] args[j] matches Expr::NamedArg { formal, value: Some(v) } ==> (
                port_index(ports, formal@) matches Some(idx) && out[idx] == *v))
            &&& forall|i: int|
                0 <= i < ports.len() && !(i < leading_positional(args)) && !named_binds(ports, args, i) ==> (
                ports[i].default matches Some(d) && #[trigger] out[i] == d)
        }),
{
    lemma_bind_shape(ports, args, f);
    let (slots, seen, pos) = bind_args(ports, args, f)->Ok_0;
    lemma_fill_shape(ports, slots, scope_ok, f, ports.len() as int);
    let out = resolve_args(ports, args, scope_ok, f)->Ok_0;
    assert forall|i: int| 0 <= i < leading_positional(args) implies #[trigger] out[i] == args[i] by {
        assert(slots[i] == Some(args[i]));
    }
    assert forall|j: int| 0 <= j < args.len() implies (#[trigger] args[j] matches Expr::NamedArg { formal, value: Some(v) } ==> (
        port_index(ports, formal@) matches Some(idx) && out[idx] == *v)) by {
        if let Expr::NamedArg { formal, value: Some(v) } = args[j] {
            lemma_port_index(ports, formal@);
            let idx = port_index(ports, formal@)->Some_0;
            assert(slots[idx] == Some(*v));
        }
    }
    assert forall|i: int| 0 <= i < ports.len() && !(i < leading_positional(args)) && !named_binds(ports, args, i) implies (
        ports[i].default matches Some(d) && #[trigger] out[i] == d) by {
        if let Some(e) = slots[i] {
            let j = choose|j: int| 0 <= j < args.len() && (#[trigger] args[j] matches Expr::NamedArg { formal, .. } && port_index(ports, formal@)
                == Some(i));
            if let Expr::NamedArg { formal, value } = args[j] {
                if value is Some {
                    assert(named_binds(ports, args, i));
                }
                lemma_port_index(ports, formal@);
                assert(slots[i] == ports[i].default);
            }
        }
    }
}

// ── when a call is refused ──────────────────────────────────────────────

/// A named actual names no formal.
pub open spec fn unknown_formal(ports: Seq<TfPort>, args: Seq<Expr>) -> bool {
    exists|j: int|
        0 <= j < args.len() && (#[trigger] args[j] matches Expr::NamedArg { formal, .. } && port_index(ports, formal@)
            is None)
}

/// A named actual names a formal an earlier actual (positional or named)
/// already binds.
pub open spec fn bound_twice(ports: Seq<TfPort>, args: Seq<Expr>) -> bool {
    exists|j: int|
        0 <= j < args.len() && (#[trigger] args[j] matches Expr::NamedArg { formal, .. } && port_index(ports, formal@)
            matches Some(idx) && (idx < leading_positional(args) || named_targets(ports, args.take(j), idx)))
}

/// A positional actual follows a named one.
pub open spec fn positional_after_named(args: Seq<Expr>) -> bool {
    exists|j: int| leading_positional(args) < j < args.len() && !(#[trigger] args[j] is NamedArg)
}

/// More positional actuals than formals.
pub open spec fn too_many_positional(ports: Seq<TfPort>, args: Seq<Expr>) -> bool {
    leading_positional(args) > ports.len()
}

/// `a` is a `.x()` naming a formal without a default.
pub open spec fn empty_default_at(ports: Seq<TfPort>, a: Expr) -> bool {
    match a {
        Expr::NamedArg { formal, value } => value is None && match port_index(ports, formal@) {
            Some(idx) => ports[idx].default is None,
            None => false,
        },
        _ => false,
    }
}

/// A `.x()` names a formal without a default.
pub open spec fn empty_without_default(ports: Seq<TfPort>, args: Seq<Expr>) -> bool {
    exists|j: int| 0 <= j < args.len() && #[trigger] empty_default_at(ports, args[j])
}

/// Formal `i` is bound by no actual.
pub open spec fn unbound(ports: Seq<TfPort>, args: Seq<Expr>, i: int) -> bool {
    !(i < leading_positional(args)) && !named_targets(ports, args, i)
}

/// An unbound formal has no default, or a default whose names bind
/// differently at the call site, or one that reads a formal.
pub open spec fn unbound_without_usable_default(ports: Seq<TfPort>, args: Seq<Expr>, scope_ok: Seq<bool>) -> bool {
    exists|i: int|
        0 <= i < ports.len() && #[trigger] unbound(ports, args, i) && match ports[i].default {
            None => true,
            Some(d) => !scope_ok[i] || reads_a_formal(ports, d),
        }
}

/// Why actuals cannot bind.
pub open spec fn binding_refused(ports: Seq<TfPort>, args: Seq<Expr>) -> bool {
    ||| unknown_formal(ports, args)
    ||| bound_twice(ports, args)
    ||| positional_after_named(args)
    ||| too_many_positional(ports, args)
    ||| empty_without_default(ports, args)
}

proof fn lemma_bind_ok_iff(ports: Seq<TfPort>, args: Seq<Expr>, f: Seq<char>)
    ensures
        bind_args(ports, args, f) is Ok <==> !binding_refused(ports, args),
    decreases args.len(),
{
    if args.len() == 0 {
        return;
    }
    let pre = args.drop_last();
    let n = args.len() - 1;
    lemma_bind_ok_iff(ports, pre, f);
    lemma_leading_bound(pre);
    lemma_leading_bound(args);
    assert forall|j: int| 0 <= j < n implies #[trigger] pre[j] == args[j] by {}
    assert forall|j: int| 0 <= j <= n implies #[trigger] args.take(j) == pre.take(j) by {
        assert(args.take(j) =~= pre.take(j));
    }
    let a = args.last();
    let lp = leading_positional(pre);
    let la = leading_positional(args);
    if bind_args(ports, pre, f) is Err {
        assert(binding_refused(ports, pre));
        assert(la >= lp);
        if unknown_formal(ports, pre) {
            let j = choose|j: int| 0 <= j < pre.len() && (#[trigger] pre[j] matches Expr::NamedArg { formal, .. }
                && port_index(ports, formal@) is None);
            assert(args[j] == pre[j]);
        } else if bound_twice(ports, pre) {
            let j = choose|j: int| 0 <= j < pre.len() && (#[trigger] pre[j] matches Expr::NamedArg { formal, .. }
                && port_index(ports, formal@) matches Some(idx) && (idx < leading_positional(pre) || named_targets(
                ports,
                pre.take(j),
                idx,
            )));
            assert(args[j] == pre[j]);
            assert(args.take(j) == pre.take(j));
        } else if positional_after_named(pre) {
            let j = choose|j: int| lp < j < pre.len() && !(#[trigger] pre[j] is NamedArg);
            assert(args[j] == pre[j]);
            assert(la == lp);
        } else if empty_without_default(ports, pre) {
            let j = choose|j: int| 0 <= j < pre.len() && #[trigger] empty_default_at(ports, pre[j]);
            assert(args[j] == pre[j]);
        }
        return;
    }
    lemma_bind_shape(ports, pre, f);
    let (slots0, seen0, pos0) = bind_args(ports, pre, f)->Ok_0;
    match a {
        Expr::NamedArg { formal, value } => {
            assert(la == lp);
            assert(args.take(n) =~= pre);
            match port_index(ports, formal@) {
                None => {
                    assert(unknown_formal(ports, args));
                },
                Some(idx) => {
                    lemma_port_index(ports, formal@);
                    if slots0[idx] is Some {
                        if !(idx < pos0) {
                            assert(named_targets(ports, pre, idx));
                        }
                        assert(args[n] == a);
                        assert(bound_twice(ports, args));
                    } else if value is None && ports[idx].default is None {
                        assert(args[n] == a);
                        assert(empty_default_at(ports, args[n]));
                        assert(empty_without_default(ports, args));
                    } else {
                        assert(!unknown_formal(ports, args)) by {
                            if unknown_formal(ports, args) {
                                let j = choose|j: int| 0 <= j < args.len() && (#[trigger] args[j] matches Expr::NamedArg {
                                    formal,
                                    ..
                                } && port_index(ports, formal@) is None);
                                if j < n {
                                    assert(pre[j] == args[j]);
                                    assert(unknown_formal(ports, pre));
                                }
                            }
                        }
                        assert(!empty_without_default(ports, args)) by {
                            if empty_without_default(ports, args) {
                                let j = choose|j: int| 0 <= j < args.len() && #[trigger] empty_default_at(ports, args[j]);
                                if j < n {
                                    assert(pre[j] == args[j]);
                                    assert(empty_without_default(ports, pre));
                                }
                            }
                        }
                        assert(!positional_after_named(args)) by {
                            if positional_after_named(args) {
                                let j = choose|j: int| la < j < args.len() && !(#[trigger] args[j] is NamedArg);
                                assert(pre[j] == args[j]);
                                assert(positional_after_named(pre));
                            }
                        }
                        assert(!bound_twice(ports, args)) by {
                            if bound_twice(ports, args) {
                                let j = choose|j: int| 0 <= j < args.len() && (#[trigger] args[j] matches Expr::NamedArg {
                                    formal,
                                    ..
                                } && port_index(ports, formal@) matches Some(idx) && (idx < leading_positional(args)
                                    || named_targets(ports, args.take(j), idx)));
                                if j < n {
                                    assert(pre[j] == args[j]);
                                    assert(args.take(j) == pre.take(j));
                                    assert(bound_twice(ports, pre));
                                } else {
                                    if idx < la {
                                        assert(slots0[idx] == Some(pre[idx]));
                                    } else {
                                        let j2 = choose|j2: int| 0 <= j2 < pre.len() && (#[trigger] pre[j2] matches Expr::NamedArg {
                                            formal,
                                            ..
                                        } && port_index(ports, formal@) == Some(idx));
                                        assert(slots0[idx] is Some);
                                    }
                                }
                            }
                        }
                    }
                },
            }
        },
        _ => {
            if seen0 {
                assert(args[n] == a);
                assert(positional_after_named(args));
            } else if pos0 >= ports.len() {
                assert(lp == n);
                assert(la == n + 1);
            } else {
                assert(lp == n);
                assert(la == n + 1);
                assert forall|j: int| 0 <= j < args.len() implies !(#[trigger] args[j] is NamedArg) by {}
            }
        },
    }
}

proof fn lemma_fill_ok_iff(ports: Seq<TfPort>, slots: Seq<Option<Expr>>, scope_ok: Seq<bool>, f: Seq<char>, k: int)
    requires
        0 <= k,
    ensures
        fill_slots(ports, slots, scope_ok, f, k) is Ok <==> forall|i: int| 0 <= i < k ==> (#[trigger] slots[i] is Some
            || match ports[i].default {
            None => false,
            Some(d) => scope_ok[i] && !reads_a_formal(ports, d),
        }),
    decreases k,
{
    if k > 0 {
        lemma_fill_ok_iff(ports, slots, scope_ok, f, k - 1);
    }
}

/// A named call is refused exactly when an actual cannot bind (it names
/// no formal, a formal already bound, follows a named one while
/// positional, is one positional too many, or is a `.x()` without a
/// default), or a formal no actual binds has no default usable at the
/// call site.
pub proof fn lemma_named_call_refused_iff(ports: Seq<TfPort>, args: Seq<Expr>, scope_ok: Seq<bool>, f: Seq<char>)
    ensures
        resolve_args(ports, args, scope_ok, f) is Err <==> (binding_refused(ports, args)
            || unbound_without_usable_default(ports, args, scope_ok)),
{
    lemma_bind_ok_iff(ports, args, f);
    if bind_args(ports, args, f) is Ok {
        lemma_bind_shape(ports, args, f);
        lemma_leading_bound(args);
        let (slots, seen, pos) = bind_args(ports, args, f)->Ok_0;
        lemma_fill_ok_iff(ports, slots, scope_ok, f, ports.len() as int);
        assert forall|i: int| 0 <= i < ports.len() implies (#[trigger] slots[i] is None <==> unbound(ports, args, i)) by {
            if i < pos {
                assert(slots[i] == Some(args[i]));
            }
            if named_targets(ports, args, i) {
                let j = choose|j: int| 0 <= j < args.len() && (#[trigger] args[j] matches Expr::NamedArg { formal, .. }
                    && port_index(ports, formal@) == Some(i));
                assert(slots[i] is Some);
            }
        }
        if unbound_without_usable_default(ports, args, scope_ok) {
            let i = choose|i: int| 0 <= i < ports.len() && #[trigger] unbound(ports, args, i) && match ports[i].default {
                None => true,
                Some(d) => !scope_ok[i] || reads_a_formal(ports, d),
            };
            assert(slots[i] is None);
        }
        if fill_slots(ports, slots, scope_ok, f, ports.len() as int) is Err {
            let i = choose|i: int| 0 <= i < ports.len() && !(#[trigger] slots[i] is Some || match ports[i].default {
                None => false,
                Some(d) => scope_ok[i] && !reads_a_formal(ports, d),
            });
            assert(unbound(ports, args, i));
        }
    }
}

} // verus!
