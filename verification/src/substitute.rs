//! Template substitution. Positional placeholders are filled in order of
//! appearance by the positional arguments, the i-th placeholder by the i-th
//! argument, each replacing only the first occurrence of its literal
//! pattern; named placeholders are replaced everywhere, by the matching
//! named argument or their default.

use vstd::prelude::*;
use crate::template::{ExpansionVariables, Variable, VariableModel};
use crate::text::{
    append_all, chars_of, replace_all, replace_all_chars, replace_first, replace_first_chars,
    subvec,
};

verus! {

/// One named argument of a capture: `key=value`.
pub struct NamedArg {
    pub key: String,
    pub value: String,
}

/// Spec model of a named argument.
pub struct NamedArgModel {
    pub key: Seq<char>,
    pub value: Seq<char>,
}

impl View for NamedArg {
    type V = NamedArgModel;

    open spec fn view(&self) -> NamedArgModel {
        NamedArgModel { key: self.key@, value: self.value@ }
    }
}

impl DeepView for NamedArg {
    type V = NamedArgModel;

    open spec fn deep_view(&self) -> NamedArgModel {
        self.view()
    }
}

/// The literal pattern a placeholder stands for in the template: `{}`,
/// `{=default}`, `{name}` or `{name=default}`.
pub open spec fn pattern_of(v: VariableModel) -> Seq<char> {
    if v.default.len() == 0 {
        seq!['{'] + v.name + seq!['}']
    } else {
        seq!['{'] + v.name + seq!['='] + v.default + seq!['}']
    }
}

/// The value of the last argument named `name`, if any.
pub open spec fn lookup_named(args: Seq<NamedArgModel>, name: Seq<char>) -> Option<Seq<char>>
    decreases args.len(),
{
    if args.len() == 0 {
        None
    } else if args.last().key == name {
        Some(args.last().value)
    } else {
        lookup_named(args.drop_last(), name)
    }
}

/// Positional substitution from the `i`-th variable on: each variable
/// replaces the first occurrence of its pattern with the argument of its
/// position, or with its default when no argument is left.
pub open spec fn subst_positionals_from(
    text: Seq<char>,
    vars: Seq<VariableModel>,
    args: Seq<Seq<char>>,
    i: int,
) -> Seq<char>
    decreases vars.len() - i,
{
    if i < 0 || i >= vars.len() {
        text
    } else {
        let val = if i < args.len() {
            args[i]
        } else {
            vars[i].default
        };
        subst_positionals_from(replace_first(text, pattern_of(vars[i]), val), vars, args, i + 1)
    }
}

/// Named substitution from the `i`-th variable on: each variable replaces
/// every occurrence of its pattern with the matching named argument, or with
/// its default.
pub open spec fn subst_named_from(
    text: Seq<char>,
    vars: Seq<VariableModel>,
    args: Seq<NamedArgModel>,
    i: int,
) -> Seq<char>
    decreases vars.len() - i,
{
    if i < 0 || i >= vars.len() {
        text
    } else {
        let val = match lookup_named(args, vars[i].name) {
            Some(v) => v,
            None => vars[i].default,
        };
        subst_named_from(replace_all(text, pattern_of(vars[i]), val), vars, args, i + 1)
    }
}

/// A stretch of characters holding no brace at all.
pub open spec fn brace_free(s: Seq<char>) -> bool {
    forall|k: int| 0 <= k < s.len() ==> s[k] != '{' && s[k] != '}'
}

/// `n` empty positional placeholders, `{}` each.
pub open spec fn holes(n: int) -> Seq<Seq<char>> {
    Seq::new(n as nat, |t: int| seq!['{', '}'])
}

/// `n` positional variables with empty name and empty default.
pub open spec fn empty_vars(n: int) -> Seq<VariableModel> {
    Seq::new(
        n as nat,
        |t: int| VariableModel { name: Seq::<char>::empty(), default: Seq::<char>::empty() },
    )
}

/// `ts[0] + vals[0] + ts[1] + vals[1] + … + ts[vals.len()]`.
pub open spec fn interleave(ts: Seq<Seq<char>>, vals: Seq<Seq<char>>) -> Seq<char>
    decreases vals.len(),
{
    if ts.len() == 0 {
        Seq::<char>::empty()
    } else if vals.len() == 0 {
        ts[0]
    } else {
        ts[0] + vals[0] + interleave(ts.drop_first(), vals.drop_first())
    }
}

/// Scanning a template built of brace-free stretches around `n` `{}` holes
/// yields exactly `n` empty positional variables.
proof fn lemma_holes_template_vars(s: Seq<char>, i: int, ts: Seq<Seq<char>>, n: int)
    requires
        0 <= i <= s.len(),
        0 <= n,
        ts.len() == n + 1,
        forall|t: int| 0 <= t < ts.len() ==> brace_free(#[trigger] ts[t]),
        s.subrange(i, s.len() as int) == interleave(ts, holes(n)),
    ensures
        crate::template::template_vars_from(s, i) == empty_vars(n),
    decreases n,
{
    let suf = s.subrange(i, s.len() as int);
    if n == 0 {
        assert(suf == ts[0]);
        assert forall|k: int| i <= k < s.len() implies s[k] != '{' by {
            assert(s[k] == suf[k - i]);
            assert(brace_free(ts[0]));
        }
        crate::template::lemma_skip_brace_free(s, i, s.len() as int);
        assert(empty_vars(0) =~= Seq::<VariableModel>::empty());
    } else {
        let rest = interleave(ts.drop_first(), holes(n - 1));
        assert(holes(n)[0] =~= seq!['{', '}']);
        assert(holes(n).drop_first() =~= holes(n - 1));
        assert(suf == ts[0] + seq!['{', '}'] + rest);
        let t0 = ts[0].len() as int;
        let p = i + t0;
        assert(s.len() - i == suf.len());
        assert(suf.len() == t0 + 2 + rest.len());
        assert forall|k: int| i <= k < p implies s[k] != '{' by {
            assert(s[k] == suf[k - i]);
            assert(suf[k - i] == ts[0][k - i]);
            assert(brace_free(ts[0]));
        }
        crate::template::lemma_skip_brace_free(s, i, p);
        assert(s[p] == suf[t0]);
        assert(suf[t0] == '{');
        assert(s[p + 1] == suf[t0 + 1]);
        assert(suf[t0 + 1] == '}');
        assert(crate::template::scan_stop(s, p + 1) == p + 1) by {
            assert(p + 1 < s.len());
            assert(crate::template::is_stop_char(s[p + 1]));
        }
        assert(s.subrange(p + 1, p + 1) =~= Seq::<char>::empty());
        assert(s.subrange(p + 2, s.len() as int) =~= rest) by {
            assert forall|k: int| 0 <= k < rest.len() implies s.subrange(
                p + 2,
                s.len() as int,
            )[k] == rest[k] by {
                assert(s.subrange(p + 2, s.len() as int)[k] == s[p + 2 + k]);
                assert(s[p + 2 + k] == suf[t0 + 2 + k]);
                assert(suf[t0 + 2 + k] == rest[k]);
            }
        }
        lemma_holes_template_vars(s, p + 2, ts.drop_first(), n - 1);
        assert(crate::template::template_vars_from(s, p) == seq![
            VariableModel { name: Seq::<char>::empty(), default: Seq::<char>::empty() },
        ] + empty_vars(n - 1));
        assert(seq![VariableModel { name: Seq::<char>::empty(), default: Seq::<char>::empty() }]
            + empty_vars(n - 1) =~= empty_vars(n));
    }
}

/// Filling one `{}` hole: the pattern is found exactly at the hole, and the
/// replacement splices the value in.
proof fn lemma_fill(
    text: Seq<char>,
    p: Seq<char>,
    ts: Seq<Seq<char>>,
    args: Seq<Seq<char>>,
    vars: Seq<VariableModel>,
    i: int,
)
    requires
        0 <= i <= vars.len(),
        vars.len() == args.len(),
        ts.len() == args.len() - i + 1,
        forall|t: int| i <= t < vars.len() ==> (#[trigger] vars[t]).name.len() == 0
            && vars[t].default.len() == 0,
        forall|t: int| 0 <= t < ts.len() ==> brace_free(#[trigger] ts[t]),
        forall|t: int| i <= t < args.len() ==> brace_free(#[trigger] args[t]),
        brace_free(p),
        text == p + interleave(ts, holes(args.len() - i)),
    ensures
        subst_positionals_from(text, vars, args, i) == p + interleave(
            ts,
            args.subrange(i, args.len() as int),
        ),
    decreases vars.len() - i,
{
    if i >= vars.len() {
        assert(args.subrange(i, args.len() as int) =~= Seq::<Seq<char>>::empty());
        assert(interleave(ts, holes(0)) == ts[0]);
        assert(interleave(ts, args.subrange(i, args.len() as int)) == ts[0]);
    } else {
        let n_rem = args.len() - i;
        let rest = interleave(ts.drop_first(), holes(n_rem - 1));
        assert(holes(n_rem)[0] =~= seq!['{', '}']);
        assert(holes(n_rem).drop_first() =~= holes(n_rem - 1));
        assert(text == p + (ts[0] + seq!['{', '}'] + rest));
        let pat = pattern_of(vars[i]);
        assert(pat =~= seq!['{', '}']);
        let q: int = p.len() as int + ts[0].len() as int;
        assert(text.len() == q + 2 + rest.len());
        assert forall|k: int| 0 <= k < q implies text[k] != '{' by {
            if k < p.len() {
                assert(text[k] == p[k]);
            } else {
                assert(text[k] == ts[0][k - p.len()]);
                assert(brace_free(ts[0]));
            }
        }
        assert(crate::text::occurs_at(text, pat, q)) by {
            assert(text.subrange(q, q + 2) =~= pat);
        }
        assert forall|j: int| 0 <= j < q implies !crate::text::occurs_at(text, pat, j) by {
            if crate::text::occurs_at(text, pat, j) {
                assert(text.subrange(j, j + 2)[0] == text[j]);
                assert(text[j] == '{');
            }
        }
        crate::text::lemma_find_from_props(text, pat, 0);
        assert(crate::text::find_first(text, pat) == Some(q)) by {
            match crate::text::find_from(text, pat, 0) {
                Some(m) => {
                    if m < q {
                        assert(crate::text::occurs_at(text, pat, m));
                    }
                    if m > q {
                        assert(!crate::text::occurs_at(text, pat, q));
                    }
                },
                None => {
                    assert(!crate::text::occurs_at(text, pat, q));
                },
            }
        }
        let val = args[i];
        let replaced = crate::text::replace_first(text, pat, val);
        assert(replaced == text.subrange(0, q) + val + text.subrange(q + 2, text.len() as int));
        assert(text.subrange(0, q) =~= p + ts[0]);
        assert(text.subrange(q + 2, text.len() as int) =~= rest);
        let p2 = p + ts[0] + val;
        assert(replaced =~= p2 + rest);
        assert(brace_free(p2)) by {
            assert(brace_free(ts[0]));
            assert(brace_free(val));
        }
        lemma_fill(replaced, p2, ts.drop_first(), args, vars, i + 1);
        assert(subst_positionals_from(text, vars, args, i) == subst_positionals_from(
            replaced,
            vars,
            args,
            i + 1,
        ));
        let tail = args.subrange(i + 1, args.len() as int);
        assert(subst_positionals_from(replaced, vars, args, i + 1) == p2 + interleave(
            ts.drop_first(),
            tail,
        ));
        let whole = args.subrange(i, args.len() as int);
        assert(whole.len() == n_rem);
        assert(whole[0] == args[i]);
        assert(whole.drop_first() =~= tail);
        assert(interleave(ts, whole) == ts[0] + val + interleave(ts.drop_first(), tail));
        assert(p + interleave(ts, whole) =~= p2 + interleave(ts.drop_first(), tail));
    }
}

/// Law (argument order): in a template of brace-free stretches around `n`
/// empty positional placeholders, positional substitution with `n`
/// brace-free arguments fills the `i`-th placeholder with the `i`-th
/// argument: the result interleaves the stretches with the arguments in
/// order.
pub proof fn lemma_positional_round_trip(ts: Seq<Seq<char>>, args: Seq<Seq<char>>)
    requires
        ts.len() == args.len() + 1,
        forall|t: int| 0 <= t < ts.len() ==> brace_free(#[trigger] ts[t]),
        forall|t: int| 0 <= t < args.len() ==> brace_free(#[trigger] args[t]),
    ensures
        ({
            let text = interleave(ts, holes(args.len() as int));
            subst_positionals_from(
                text,
                crate::template::positional_vars(text),
                args,
                0,
            ) == interleave(ts, args)
        }),
{
    let n = args.len() as int;
    let text = interleave(ts, holes(n));
    assert(text.subrange(0, text.len() as int) =~= text);
    lemma_holes_template_vars(text, 0, ts, n);
    crate::template::lemma_positionals_all(empty_vars(n), 0);
    assert(empty_vars(n).subrange(0, n) =~= empty_vars(n));
    assert(crate::template::positional_vars(text) == empty_vars(n));
    assert(Seq::<char>::empty() + text =~= text);
    lemma_fill(text, Seq::<char>::empty(), ts, args, empty_vars(n), 0);
    assert(args.subrange(0, args.len() as int) =~= args);
}

/// The pattern of `v`, as characters.
fn pattern_chars(v: &Variable) -> (p: Vec<char>)
    ensures
        p@ == pattern_of(v@),
{
    let mut p: Vec<char> = Vec::new();
    p.push('{');
    let name_chars = chars_of(v.name.as_str());
    append_all(&mut p, &name_chars);
    if v.default.as_str().is_empty() {
        p.push('}');
        proof {
            assert(p@ =~= pattern_of(v@));
        }
    } else {
        p.push('=');
        let default_chars = chars_of(v.default.as_str());
        append_all(&mut p, &default_chars);
        p.push('}');
        proof {
            assert(p@ =~= pattern_of(v@));
        }
    }
    p
}

/// The value of the last argument of `args` named `name`, as an index.
#[verifier::loop_isolation(false)]
fn lookup_named_exec(args: &Vec<NamedArg>, name: &str) -> (r: Option<usize>)
    ensures
        match r {
            Some(k) => k < args@.len() && lookup_named(args.deep_view(), name@) == Some(
                args@[k as int].value@,
            ),
            None => lookup_named(args.deep_view(), name@) is None,
        },
{
    let ghost dv = args.deep_view();
    let mut found: Option<usize> = None;
    let mut i: usize = 0;
    while i < args.len()
        invariant
            i <= args@.len(),
            dv == args.deep_view(),
            dv.len() == args@.len(),
            match found {
                Some(k) => k < i && lookup_named(dv.subrange(0, i as int), name@) == Some(
                    args@[k as int].value@,
                ),
                None => lookup_named(dv.subrange(0, i as int), name@) is None,
            },
        decreases args@.len() - i,
    {
        let hit = crate::text::str_eq(args[i].key.as_str(), name);
        proof {
            assert(dv[i as int] == args@[i as int]@);
            assert(dv.subrange(0, i + 1 as int).drop_last() =~= dv.subrange(0, i as int));
            assert(dv.subrange(0, i + 1 as int).last() == dv[i as int]);
        }
        if hit {
            found = Some(i);
        }
        i = i + 1;
    }
    proof {
        assert(dv.subrange(0, dv.len() as int) =~= dv);
    }
    found
}

/// Fills the placeholders of `text`: positional variables in order, each
/// taking the argument of its position (default when none is left) and
/// replacing the first occurrence of its pattern; then named variables,
/// replacing every occurrence of their pattern with the matching named
/// argument or their default.
#[verifier::loop_isolation(false)]
pub fn substitute(
    text: &Vec<char>,
    vars: &ExpansionVariables,
    pos_args: &Vec<Vec<char>>,
    named_args: &Vec<NamedArg>,
) -> (r: Vec<char>)
    ensures
        r@ == subst_named_from(
            subst_positionals_from(text@, vars.unnamed.deep_view(), pos_args.deep_view(), 0),
            vars.named.deep_view(),
            named_args.deep_view(),
            0,
        ),
{
    let ghost uv = vars.unnamed.deep_view();
    let ghost pa = pos_args.deep_view();
    let mut cur = subvec(text, 0, text.len());
    proof {
        assert(text@.subrange(0, text@.len() as int) =~= text@);
    }
    let mut i: usize = 0;
    while i < vars.unnamed.len()
        invariant
            i <= vars.unnamed@.len(),
            uv == vars.unnamed.deep_view(),
            pa == pos_args.deep_view(),
            uv.len() == vars.unnamed@.len(),
            pa.len() == pos_args@.len(),
            subst_positionals_from(text@, uv, pa, 0) == subst_positionals_from(
                cur@,
                uv,
                pa,
                i as int,
            ),
        decreases vars.unnamed@.len() - i,
    {
        let v = &vars.unnamed[i];
        proof {
            assert(uv[i as int] == vars.unnamed@[i as int]@);
        }
        let pat = pattern_chars(v);
        let next = if i < pos_args.len() {
            proof {
                assert(pa[i as int] == pos_args@[i as int]@);
            }
            replace_first_chars(&cur, &pat, &pos_args[i])
        } else {
            let dflt = chars_of(v.default.as_str());
            replace_first_chars(&cur, &pat, &dflt)
        };
        cur = next;
        i = i + 1;
    }
    let ghost nv = vars.named.deep_view();
    let ghost na = named_args.deep_view();
    proof {
        assert(subst_positionals_from(cur@, uv, pa, uv.len() as int) == cur@);
    }
    let ghost mid = cur@;
    let mut i: usize = 0;
    while i < vars.named.len()
        invariant
            i <= vars.named@.len(),
            nv == vars.named.deep_view(),
            na == named_args.deep_view(),
            nv.len() == vars.named@.len(),
            subst_named_from(mid, nv, na, 0) == subst_named_from(cur@, nv, na, i as int),
        decreases vars.named@.len() - i,
    {
        let v = &vars.named[i];
        proof {
            assert(nv[i as int] == vars.named@[i as int]@);
        }
        let pat = pattern_chars(v);
        let next = match lookup_named_exec(named_args, v.name.as_str()) {
            Some(k) => {
                let val = chars_of(named_args[k].value.as_str());
                replace_all_chars(&cur, &pat, &val)
            },
            None => {
                let dflt = chars_of(v.default.as_str());
                replace_all_chars(&cur, &pat, &dflt)
            },
        };
        cur = next;
        i = i + 1;
    }
    proof {
        assert(subst_named_from(cur@, nv, na, nv.len() as int) == cur@);
    }
    cur
}

} // verus!
