//! Template placeholders. A template is scanned left to right: `{` opens a
//! placeholder whose name runs until `}`, `=` or white space; after `=` a
//! default value runs until `}`. A placeholder interrupted by white space is
//! literal text. This module also holds the loose placeholder test used by
//! auto-confirm: any brace-enclosed span free of white space and `}`.

use vstd::prelude::*;
use vstd::pervasive::VecAdditionalExecFns;
use crate::settings::Expansion;
use crate::text::{chars_of, is_whitespace_char, string_of, str_eq, subvec};

verus! {

/// One placeholder of a template: positional when `name` is empty, named
/// otherwise, with its default value (empty when none was given).
pub struct Variable {
    pub name: String,
    pub default: String,
}

/// Spec model of a placeholder.
pub struct VariableModel {
    pub name: Seq<char>,
    pub default: Seq<char>,
}

impl View for Variable {
    type V = VariableModel;

    open spec fn view(&self) -> VariableModel {
        VariableModel { name: self.name@, default: self.default@ }
    }
}

impl DeepView for Variable {
    type V = VariableModel;

    open spec fn deep_view(&self) -> VariableModel {
        self.view()
    }
}

/// The placeholders of a template, split into named ones (deduplicated, in
/// order of first appearance, later defaults winning) and positional ones
/// (in order of appearance).
pub struct ExpansionVariables {
    pub named: Vec<Variable>,
    pub unnamed: Vec<Variable>,
}

/// A character that ends the name scan of a placeholder.
pub open spec fn is_stop_char(c: char) -> bool {
    c == '}' || c == '=' || is_whitespace_char(c)
}

/// The first position at or after `j` holding a stop character, or the end.
pub open spec fn scan_stop(s: Seq<char>, j: int) -> int
    decreases s.len() - j,
{
    if j >= s.len() {
        s.len() as int
    } else if is_stop_char(s[j]) {
        j
    } else {
        scan_stop(s, j + 1)
    }
}

/// The first position at or after `j` holding `}`, or the end.
pub open spec fn scan_close(s: Seq<char>, j: int) -> int
    decreases s.len() - j,
{
    if j >= s.len() {
        s.len() as int
    } else if s[j] == '}' {
        j
    } else {
        scan_close(s, j + 1)
    }
}

/// `scan_stop` stays between `j` and the end.
pub proof fn lemma_scan_stop_range(s: Seq<char>, j: int)
    requires
        0 <= j <= s.len(),
    ensures
        j <= scan_stop(s, j) <= s.len(),
    decreases s.len() - j,
{
    if j < s.len() && !is_stop_char(s[j]) {
        lemma_scan_stop_range(s, j + 1);
    }
}

/// `scan_close` stays between `j` and the end.
pub proof fn lemma_scan_close_range(s: Seq<char>, j: int)
    requires
        0 <= j <= s.len(),
    ensures
        j <= scan_close(s, j) <= s.len(),
    decreases s.len() - j,
{
    if j < s.len() && s[j] != '}' {
        lemma_scan_close_range(s, j + 1);
    }
}

/// The placeholders of `s` from position `i` on, in order of appearance.
/// A `{` opens a placeholder; its name runs to `}`, `=` or white space; after
/// `=` the default runs to `}`; white space abandons the placeholder; the end
/// of the template closes an open placeholder.
pub open spec fn template_vars_from(s: Seq<char>, i: int) -> Seq<VariableModel>
    decreases s.len() - i,
    via template_vars_from_decreases
{
    if i < 0 || i >= s.len() {
        Seq::<VariableModel>::empty()
    } else if s[i] != '{' {
        template_vars_from(s, i + 1)
    } else {
        let ne = scan_stop(s, i + 1);
        if ne >= s.len() {
            seq![VariableModel { name: s.subrange(i + 1, ne), default: Seq::<char>::empty() }]
        } else if s[ne] == '}' {
            seq![VariableModel { name: s.subrange(i + 1, ne), default: Seq::<char>::empty() }]
                + template_vars_from(s, ne + 1)
        } else if s[ne] == '=' {
            let de = scan_close(s, ne + 1);
            seq![VariableModel { name: s.subrange(i + 1, ne), default: s.subrange(ne + 1, de) }]
                + (if de >= s.len() {
                Seq::<VariableModel>::empty()
            } else {
                template_vars_from(s, de + 1)
            })
        } else {
            template_vars_from(s, ne + 1)
        }
    }
}

#[via_fn]
proof fn template_vars_from_decreases(s: Seq<char>, i: int) {
    if 0 <= i < s.len() && s[i] == '{' {
        lemma_scan_stop_range(s, i + 1);
        let ne = scan_stop(s, i + 1);
        if ne < s.len() && s[ne] == '=' {
            lemma_scan_close_range(s, ne + 1);
        }
    }
}

/// The positional placeholders among `vs`, from `i` on.
pub open spec fn positionals_from(vs: Seq<VariableModel>, i: int) -> Seq<VariableModel>
    decreases vs.len() - i,
{
    if i < 0 || i >= vs.len() {
        Seq::<VariableModel>::empty()
    } else if vs[i].name.len() == 0 {
        seq![vs[i]] + positionals_from(vs, i + 1)
    } else {
        positionals_from(vs, i + 1)
    }
}

/// The position of the first variable in `vs` (from `i` on) named `name`.
pub open spec fn find_name_from(vs: Seq<VariableModel>, name: Seq<char>, i: int) -> Option<int>
    decreases vs.len() - i,
{
    if i < 0 || i >= vs.len() {
        None
    } else if vs[i].name == name {
        Some(i)
    } else {
        find_name_from(vs, name, i + 1)
    }
}

/// `acc` with `v` added: in place of the variable of the same name if one is
/// there (the later default wins), appended otherwise.
pub open spec fn named_upsert(acc: Seq<VariableModel>, v: VariableModel) -> Seq<VariableModel> {
    match find_name_from(acc, v.name, 0) {
        Some(k) => acc.update(k, v),
        None => acc.push(v),
    }
}

/// The named placeholders among `vs` from `i` on, folded into `acc`:
/// duplicate names collapse, the last default wins, order of first
/// appearance is kept.
pub open spec fn collect_named(vs: Seq<VariableModel>, i: int, acc: Seq<VariableModel>) -> Seq<
    VariableModel,
>
    decreases vs.len() - i,
{
    if i < 0 || i >= vs.len() {
        acc
    } else if vs[i].name.len() == 0 {
        collect_named(vs, i + 1, acc)
    } else {
        collect_named(vs, i + 1, named_upsert(acc, vs[i]))
    }
}

/// The positional placeholders of template `text`, in order.
pub open spec fn positional_vars(text: Seq<char>) -> Seq<VariableModel> {
    positionals_from(template_vars_from(text, 0), 0)
}

/// The named placeholders of template `text`, deduplicated.
pub open spec fn named_vars(text: Seq<char>) -> Seq<VariableModel> {
    collect_named(template_vars_from(text, 0), 0, Seq::<VariableModel>::empty())
}

/// The first stop character at or after `j` in `s`.
#[verifier::loop_isolation(false)]
fn scan_stop_exec(s: &Vec<char>, j: usize) -> (r: usize)
    requires
        j <= s@.len(),
    ensures
        r as int == scan_stop(s@, j as int),
        j <= r <= s@.len(),
        r < s@.len() ==> is_stop_char(s@[r as int]),
{
    proof {
        lemma_scan_stop_range(s@, j as int);
    }
    let mut k: usize = j;
    while k < s.len()
        invariant
            j <= k <= s@.len(),
            scan_stop(s@, j as int) == scan_stop(s@, k as int),
        decreases s@.len() - k,
    {
        let c = s[k];
        if c == '}' || c == '=' || c.is_whitespace() {
            return k;
        }
        k = k + 1;
    }
    k
}

/// The first `}` at or after `j` in `s`.
#[verifier::loop_isolation(false)]
fn scan_close_exec(s: &Vec<char>, j: usize) -> (r: usize)
    requires
        j <= s@.len(),
    ensures
        r as int == scan_close(s@, j as int),
        j <= r <= s@.len(),
        r < s@.len() ==> s@[r as int] == '}',
{
    proof {
        lemma_scan_close_range(s@, j as int);
    }
    let mut k: usize = j;
    while k < s.len()
        invariant
            j <= k <= s@.len(),
            scan_close(s@, j as int) == scan_close(s@, k as int),
        decreases s@.len() - k,
    {
        if s[k] == '}' {
            return k;
        }
        k = k + 1;
    }
    k
}

/// The position of the first variable in `vars` named `name`.
#[verifier::loop_isolation(false)]
fn find_name_exec(vars: &Vec<Variable>, name: &str) -> (r: Option<usize>)
    ensures
        match r {
            Some(k) => k < vars@.len() && find_name_from(vars.deep_view(), name@, 0) == Some(
                k as int,
            ),
            None => find_name_from(vars.deep_view(), name@, 0) is None,
        },
{
    let ghost dv = vars.deep_view();
    let mut i: usize = 0;
    while i < vars.len()
        invariant
            i <= vars@.len(),
            dv == vars.deep_view(),
            dv.len() == vars@.len(),
            find_name_from(dv, name@, 0) == find_name_from(dv, name@, i as int),
        decreases vars@.len() - i,
    {
        let hit = str_eq(vars[i].name.as_str(), name);
        proof {
            assert(dv[i as int] == vars@[i as int]@);
        }
        if hit {
            return Some(i);
        }
        i = i + 1;
    }
    None
}

/// The raw placeholder list of `text`, in order of appearance.
#[verifier::loop_isolation(false)]
fn scan_template(s: &Vec<char>) -> (raw: Vec<Variable>)
    ensures
        raw.deep_view() == template_vars_from(s@, 0),
{
    let n = s.len();
    let mut raw: Vec<Variable> = Vec::new();
    let mut i: usize = 0;
    while i < n
        invariant
            i <= n,
            template_vars_from(s@, 0) == raw.deep_view() + template_vars_from(s@, i as int),
        decreases n - i,
    {
        let ghost old_raw = raw.deep_view();
        let ghost i0 = i as int;
        if s[i] == '{' {
            let ne = scan_stop_exec(s, i + 1);
            if ne >= n {
                let v = Variable {
                    name: string_of(&subvec(s, i + 1, ne)),
                    default: String::new(),
                };
                proof {
                    assert(v@ == VariableModel {
                        name: s@.subrange(i0 + 1, ne as int),
                        default: Seq::<char>::empty(),
                    });
                }
                raw.push(v);
                proof {
                    assert(raw.deep_view() =~= old_raw.push(v@));
                    assert(template_vars_from(s@, i0) =~= seq![v@]);
                    assert(old_raw + template_vars_from(s@, i0) =~= raw.deep_view()
                        + template_vars_from(s@, n as int));
                }
                i = n;
            } else {
                let stop = s[ne];
                if stop == '}' {
                    let v = Variable {
                        name: string_of(&subvec(s, i + 1, ne)),
                        default: String::new(),
                    };
                    raw.push(v);
                    proof {
                        assert(raw.deep_view() =~= old_raw.push(v@));
                        assert(template_vars_from(s@, i0) =~= seq![v@] + template_vars_from(
                            s@,
                            ne + 1,
                        ));
                        assert(old_raw + template_vars_from(s@, i0) =~= raw.deep_view()
                            + template_vars_from(s@, ne + 1));
                    }
                    i = ne + 1;
                } else if stop == '=' {
                    let de = scan_close_exec(s, ne + 1);
                    let v = Variable {
                        name: string_of(&subvec(s, i + 1, ne)),
                        default: string_of(&subvec(s, ne + 1, de)),
                    };
                    raw.push(v);
                    if de >= n {
                        proof {
                            assert(raw.deep_view() =~= old_raw.push(v@));
                            assert(template_vars_from(s@, i0) =~= seq![v@]);
                            assert(old_raw + template_vars_from(s@, i0) =~= raw.deep_view()
                                + template_vars_from(s@, n as int));
                        }
                        i = n;
                    } else {
                        proof {
                            assert(raw.deep_view() =~= old_raw.push(v@));
                            assert(template_vars_from(s@, i0) =~= seq![v@] + template_vars_from(
                                s@,
                                de + 1,
                            ));
                            assert(old_raw + template_vars_from(s@, i0) =~= raw.deep_view()
                                + template_vars_from(s@, de + 1));
                        }
                        i = de + 1;
                    }
                } else {
                    proof {
                        assert(is_stop_char(s@[ne as int]));
                        assert(is_whitespace_char(s@[ne as int]));
                        assert(template_vars_from(s@, i0) == template_vars_from(s@, ne + 1));
                    }
                    i = ne + 1;
                }
            }
        } else {
            proof {
                assert(template_vars_from(s@, i0) == template_vars_from(s@, i0 + 1));
            }
            i = i + 1;
        }
    }
    proof {
        assert(raw.deep_view() + template_vars_from(s@, n as int) =~= raw.deep_view());
    }
    raw
}

/// Parses the placeholders of the expansion's template: positional variables
/// in order of appearance under `unnamed`, named variables deduplicated by
/// name (last default wins, order of first appearance) under `named`.
#[verifier::loop_isolation(false)]
pub fn parse_variables(expansion: &Expansion) -> (r: ExpansionVariables)
    ensures
        r.unnamed.deep_view() == positional_vars(expansion.text@),
        r.named.deep_view() == named_vars(expansion.text@),
{
    let s = chars_of(expansion.text.as_str());
    let raw = scan_template(&s);
    let ghost dv = raw.deep_view();
    let mut unnamed: Vec<Variable> = Vec::new();
    let mut named: Vec<Variable> = Vec::new();
    proof {
        assert(unnamed.deep_view() =~= Seq::<VariableModel>::empty());
        assert(named.deep_view() =~= Seq::<VariableModel>::empty());
    }
    let mut j: usize = 0;
    while j < raw.len()
        invariant
            j <= raw@.len(),
            dv == raw.deep_view(),
            dv.len() == raw@.len(),
            positionals_from(dv, 0) == unnamed.deep_view() + positionals_from(dv, j as int),
            collect_named(dv, 0, Seq::<VariableModel>::empty()) == collect_named(
                dv,
                j as int,
                named.deep_view(),
            ),
        decreases raw@.len() - j,
    {
        let ghost j0 = j as int;
        let v = Variable { name: raw[j].name.clone(), default: raw[j].default.clone() };
        proof {
            assert(dv[j0] == raw@[j0]@);
            assert(v@ == dv[j0]);
        }
        if v.name.as_str().is_empty() {
            let ghost old_unnamed = unnamed.deep_view();
            unnamed.push(v);
            proof {
                assert(unnamed.deep_view() =~= old_unnamed.push(dv[j0]));
                assert(positionals_from(dv, j0) =~= seq![dv[j0]] + positionals_from(dv, j0 + 1));
                assert(old_unnamed + positionals_from(dv, j0) =~= unnamed.deep_view()
                    + positionals_from(dv, j0 + 1));
            }
        } else {
            let ghost old_named = named.deep_view();
            match find_name_exec(&named, v.name.as_str()) {
                Some(k) => {
                    named.set(k, v);
                    proof {
                        assert(named.deep_view() =~= named_upsert(old_named, dv[j0]));
                    }
                },
                None => {
                    named.push(v);
                    proof {
                        assert(named.deep_view() =~= named_upsert(old_named, dv[j0]));
                    }
                },
            }
            proof {
                assert(collect_named(dv, j0, old_named) == collect_named(
                    dv,
                    j0 + 1,
                    named_upsert(old_named, dv[j0]),
                ));
            }
        }
        j = j + 1;
    }
    proof {
        assert(unnamed.deep_view() + positionals_from(dv, dv.len() as int) =~= unnamed.deep_view());
    }
    ExpansionVariables { named, unnamed }
}

/// Scanning may skip over a stretch without opening braces.
pub proof fn lemma_skip_brace_free(s: Seq<char>, i: int, j: int)
    requires
        0 <= i <= j <= s.len(),
        forall|k: int| i <= k < j ==> s[k] != '{',
    ensures
        template_vars_from(s, i) == template_vars_from(s, j),
    decreases j - i,
{
    if i < j {
        lemma_skip_brace_free(s, i + 1, j);
    }
}

/// Among variables that are all positional, filtering keeps everything.
pub proof fn lemma_positionals_all(vs: Seq<VariableModel>, i: int)
    requires
        0 <= i <= vs.len(),
        forall|t: int| 0 <= t < vs.len() ==> (#[trigger] vs[t]).name.len() == 0,
    ensures
        positionals_from(vs, i) == vs.subrange(i, vs.len() as int),
    decreases vs.len() - i,
{
    if i < vs.len() {
        lemma_positionals_all(vs, i + 1);
        assert(seq![vs[i]] + vs.subrange(i + 1, vs.len() as int) =~= vs.subrange(
            i,
            vs.len() as int,
        ));
    } else {
        assert(vs.subrange(i, vs.len() as int) =~= Seq::<VariableModel>::empty());
    }
}

/// A template without an opening brace has no placeholders.
pub proof fn lemma_brace_free_no_vars(s: Seq<char>, i: int)
    requires
        forall|k: int| 0 <= k < s.len() ==> s[k] != '{',
    ensures
        template_vars_from(s, i) == Seq::<VariableModel>::empty(),
    decreases s.len() - i,
{
    if 0 <= i < s.len() {
        lemma_brace_free_no_vars(s, i + 1);
    }
}

/// A loose placeholder spans `s[i..=j]`: braces around characters that are
/// neither `}` nor white space.
pub open spec fn loose_var_at(s: Seq<char>, i: int, j: int) -> bool {
    &&& 0 <= i < j < s.len()
    &&& s[i] == '{'
    &&& s[j] == '}'
    &&& forall|k: int| i < k < j ==> s[k] != '}' && !is_whitespace_char(s[k])
}

/// Whether `s` holds any loose placeholder. Auto-confirm never fires for a
/// template with one.
pub open spec fn has_loose_variable(s: Seq<char>) -> bool {
    exists|i: int, j: int| loose_var_at(s, i, j)
}

/// A `{` at `i` still open at `pos`: no `}` or white space has appeared since.
spec fn open_brace_at(s: Seq<char>, i: int, pos: int) -> bool {
    &&& 0 <= i < pos <= s.len()
    &&& s[i] == '{'
    &&& forall|k: int| i < k < pos ==> s[k] != '}' && !is_whitespace_char(s[k])
}

/// Whether `text` holds a loose placeholder.
#[verifier::loop_isolation(false)]
pub fn has_loose_var(text: &Vec<char>) -> (r: bool)
    ensures
        r == has_loose_variable(text@),
{
    let mut active = false;
    let ghost mut start: int = 0;
    let mut pos: usize = 0;
    while pos < text.len()
        invariant
            pos <= text@.len(),
            forall|i: int, j: int| j < pos ==> !loose_var_at(text@, i, j),
            active ==> open_brace_at(text@, start, pos as int),
            !active ==> forall|i: int| !open_brace_at(text@, i, pos as int),
        decreases text@.len() - pos,
    {
        let c = text[pos];
        if c == '{' {
            active = true;
            proof {
                start = pos as int;
            }
        } else if c == '}' {
            if active {
                proof {
                    assert(loose_var_at(text@, start, pos as int));
                }
                return true;
            }
            proof {
                let pos1: int = pos as int + 1;
                assert forall|i: int| !open_brace_at(text@, i, pos1) by {
                    if open_brace_at(text@, i, pos1) {
                        if i < pos {
                            assert(open_brace_at(text@, i, pos as int));
                        }
                    }
                }
            }
        } else if c.is_whitespace() {
            active = false;
            proof {
                let pos1: int = pos as int + 1;
                assert forall|i: int| !open_brace_at(text@, i, pos1) by {
                    if open_brace_at(text@, i, pos1) {
                        if i < pos {
                            assert(is_whitespace_char(text@[pos as int]));
                        }
                    }
                }
            }
        } else {
            proof {
                let pos1: int = pos as int + 1;
                if active {
                    assert(open_brace_at(text@, start, pos1));
                } else {
                    assert forall|i: int| !open_brace_at(text@, i, pos1) by {
                        if open_brace_at(text@, i, pos1) && i < pos {
                            assert(open_brace_at(text@, i, pos as int));
                        }
                    }
                }
            }
        }
        proof {
            assert forall|i: int, j: int| j < pos + 1 implies !loose_var_at(text@, i, j) by {
                if j == pos && loose_var_at(text@, i, j) {
                    assert(text@[pos as int] == '}');
                    assert(open_brace_at(text@, i, pos as int));
                }
            }
        }
        pos = pos + 1;
    }
    proof {
        assert forall|i: int, j: int| !loose_var_at(text@, i, j) by {
            if loose_var_at(text@, i, j) {
                assert(j < text@.len());
            }
        }
    }
    false
}

} // verus!
