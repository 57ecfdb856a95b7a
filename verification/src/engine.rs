//! The expansion engine: turns a finished capture into a replay plan. The
//! captured sequence splits on the separator into the abbreviation and its
//! arguments; the selected template is filled in; the plan says how many
//! backspaces undo the typed characters (sequence, echoed confirm character,
//! the trigger itself, and the confirming enter), what to insert, whether to
//! replay the enter press, and how long to let the deletions settle.

use vstd::prelude::*;
use crate::capture::{CaptureSignal, SignalModel};
use crate::select::{select_expansion, select_expansion_model};
use crate::settings::{AppSettings, SettingsModel};
use crate::substitute::{subst_named_from, subst_positionals_from, substitute, NamedArg, NamedArgModel};
use crate::template::{named_vars, parse_variables, positional_vars};
use crate::text::{append_all, chars_of, lemma_deep_chars, split_chars, split_seq, str_eq, string_of};

verus! {

/// The positional arguments among `parts[i..]`: parts without a `key=` head,
/// and parts whose `=` head is empty.
pub open spec fn positional_args_from(parts: Seq<Seq<char>>, i: int) -> Seq<Seq<char>>
    decreases parts.len() - i,
{
    if i < 0 || i >= parts.len() {
        Seq::<Seq<char>>::empty()
    } else {
        let ep = split_seq(parts[i], seq!['=']);
        if ep.len() == 2 {
            if ep[0].len() == 0 {
                seq![ep[1]] + positional_args_from(parts, i + 1)
            } else {
                positional_args_from(parts, i + 1)
            }
        } else {
            seq![ep[0]] + positional_args_from(parts, i + 1)
        }
    }
}

/// The named arguments among `parts[i..]`: parts of the exact shape
/// `key=value` with a non-empty key.
pub open spec fn named_args_from(parts: Seq<Seq<char>>, i: int) -> Seq<NamedArgModel>
    decreases parts.len() - i,
{
    if i < 0 || i >= parts.len() {
        Seq::<NamedArgModel>::empty()
    } else {
        let ep = split_seq(parts[i], seq!['=']);
        if ep.len() == 2 && ep[0].len() > 0 {
            seq![NamedArgModel { key: ep[0], value: ep[1] }] + named_args_from(parts, i + 1)
        } else {
            named_args_from(parts, i + 1)
        }
    }
}

/// The number of backspaces that undo an emitted capture: the captured
/// characters, the echoed confirm character, one for the trigger itself, and
/// one more when an enter press is replayed.
pub open spec fn deletion_count(sig: SignalModel) -> int {
    sig.sequence.len() + sig.append.len() + 1 + (if sig.append_enter {
        1int
    } else {
        0int
    })
}

/// Whether the platform name is the one that skips the settle delay.
pub open spec fn is_windows(os: Seq<char>) -> bool {
    os == seq!['w', 'i', 'n', 'd', 'o', 'w', 's']
}

/// Milliseconds to wait after the deletions: none on windows, otherwise five
/// per deleted character and at least fifty, saturated at the largest
/// representable delay.
pub open spec fn settle_millis(count: int, os: Seq<char>) -> int {
    if is_windows(os) {
        0
    } else {
        let scaled = if 5 * count > u64::MAX as int {
            u64::MAX as int
        } else {
            5 * count
        };
        if scaled < 50 {
            50
        } else {
            scaled
        }
    }
}

/// The template `text` with its placeholders filled from the argument parts
/// of a capture (the part before the first separator is the abbreviation).
pub open spec fn rendered_text(text: Seq<char>, parts: Seq<Seq<char>>) -> Seq<char> {
    subst_named_from(
        subst_positionals_from(text, positional_vars(text), positional_args_from(parts, 1), 0),
        named_vars(text),
        named_args_from(parts, 1),
        0,
    )
}

/// Spec model of a replay plan.
pub struct PlanModel {
    pub backspace_count: int,
    pub insert: Seq<char>,
    pub press_enter: bool,
    pub settle_millis: int,
}

/// The replay plan for a capture, if the separator is configured and some
/// expansion applies: delete `deletion_count` characters, wait
/// `settle_millis`, insert the rendered text followed by the echoed confirm
/// character, and replay the enter press when one confirmed the capture.
pub open spec fn plan_for(
    sig: SignalModel,
    cfg: SettingsModel,
    os: Seq<char>,
    path: Seq<char>,
) -> Option<PlanModel> {
    if cfg.separator.len() == 0 {
        None
    } else {
        let parts = split_seq(sig.sequence, cfg.separator);
        match select_expansion_model(cfg, parts[0], os, path) {
            None => None,
            Some(e) => Some(
                PlanModel {
                    backspace_count: deletion_count(sig),
                    insert: rendered_text(e.text, parts) + sig.append,
                    press_enter: sig.append_enter,
                    settle_millis: settle_millis(deletion_count(sig), os),
                },
            ),
        }
    }
}

/// Law: substitution is the identity on a template without placeholders.
/// When the selected expansion's template holds no `{`, the planned insertion
/// is exactly the template followed by the echoed confirm character.
pub proof fn lemma_no_placeholder_insert(
    sig: SignalModel,
    cfg: SettingsModel,
    os: Seq<char>,
    path: Seq<char>,
    e: crate::settings::ExpansionModel,
)
    requires
        cfg.separator.len() > 0,
        select_expansion_model(cfg, split_seq(sig.sequence, cfg.separator)[0], os, path) == Some(e),
        forall|k: int| 0 <= k < e.text.len() ==> e.text[k] != '{',
    ensures
        plan_for(sig, cfg, os, path) == Some(
            PlanModel {
                backspace_count: deletion_count(sig),
                insert: e.text + sig.append,
                press_enter: sig.append_enter,
                settle_millis: settle_millis(deletion_count(sig), os),
            },
        ),
{
    let parts = split_seq(sig.sequence, cfg.separator);
    crate::template::lemma_brace_free_no_vars(e.text, 0);
    assert(positional_vars(e.text) =~= Seq::<crate::template::VariableModel>::empty());
    assert(named_vars(e.text) =~= Seq::<crate::template::VariableModel>::empty());
    assert(rendered_text(e.text, parts) == e.text);
}

/// A replay plan, ready for the synthetic-input adapter.
pub struct ExpansionPlan {
    pub backspace_count: usize,
    pub insert: String,
    pub press_enter: bool,
    pub settle_millis: u64,
}

impl View for ExpansionPlan {
    type V = PlanModel;

    open spec fn view(&self) -> PlanModel {
        PlanModel {
            backspace_count: self.backspace_count as int,
            insert: self.insert@,
            press_enter: self.press_enter,
            settle_millis: self.settle_millis as int,
        }
    }
}

impl DeepView for ExpansionPlan {
    type V = PlanModel;

    open spec fn deep_view(&self) -> PlanModel {
        self.view()
    }
}

/// Turns a capture signal into a replay plan under the given settings,
/// platform name and focused process path; `None` when the separator is
/// empty or no expansion applies. The backspace count always equals the
/// deletion-count equation.
#[verifier::loop_isolation(false)]
pub fn plan_expansion(
    signal: &CaptureSignal,
    cfg: &AppSettings,
    os: &str,
    path: &str,
) -> (r: Option<ExpansionPlan>)
    requires
        signal.sequence@.len() + signal.append@.len() + 2 <= usize::MAX,
    ensures
        r.deep_view() == plan_for(signal@, cfg@, os@, path@),
        match r {
            Some(p) => p.backspace_count == signal.sequence@.len() + signal.append@.len() + 1 + (
            if signal.append_enter {
                1int
            } else {
                0int
            }),
            None => plan_for(signal@, cfg@, os@, path@) is None,
        },
{
    let sep_chars = chars_of(cfg.variables.separator.as_str());
    if sep_chars.len() == 0 {
        return None;
    }
    let seq_chars = chars_of(signal.sequence.as_str());
    let parts = split_chars(&seq_chars, &sep_chars);
    let ghost pdv = parts.deep_view();
    proof {
        assert(pdv == split_seq(signal.sequence@, cfg@.separator));
        assert(pdv.len() >= 1);
    }
    proof {
        lemma_deep_chars(parts@[0]);
        assert(parts@[0]@ == pdv[0]);
    }
    let k = match select_expansion(cfg, &parts[0], os, path) {
        None => {
            return None;
        },
        Some(k) => k,
    };
    let chosen = &cfg.expansions[k];
    let vars = parse_variables(chosen);

    let mut eq_sep: Vec<char> = Vec::new();
    eq_sep.push('=');
    proof {
        assert(eq_sep@ =~= seq!['=']);
    }

    let mut pos_args: Vec<Vec<char>> = Vec::new();
    let mut named_args: Vec<NamedArg> = Vec::new();
    proof {
        assert(pos_args.deep_view() =~= Seq::<Seq<char>>::empty());
        assert(named_args.deep_view() =~= Seq::<NamedArgModel>::empty());
    }
    let mut t: usize = 1;
    while t < parts.len()
        invariant
            1 <= t <= parts@.len(),
            pdv == parts.deep_view(),
            pdv.len() == parts@.len(),
            eq_sep@ == seq!['='],
            positional_args_from(pdv, 1) == pos_args.deep_view() + positional_args_from(
                pdv,
                t as int,
            ),
            named_args_from(pdv, 1) == named_args.deep_view() + named_args_from(pdv, t as int),
        decreases parts@.len() - t,
    {
        let ghost t0 = t as int;
        let mut eq = split_chars(&parts[t], &eq_sep);
        proof {
            lemma_deep_chars(parts@[t0]);
            assert(parts@[t0]@ == pdv[t0]);
            assert(eq.deep_view() == split_seq(pdv[t0], seq!['=']));
        }
        let ghost ep = split_seq(pdv[t0], seq!['=']);
        let ghost eqdv = eq.deep_view();
        proof {
            assert(eqdv.len() == eq@.len());
        }
        if eq.len() == 2 {
            proof {
                lemma_deep_chars(eq@[0]);
                assert(eq@[0]@ == ep[0]);
            }
            if eq[0].len() == 0 {
                let ghost old_pos = pos_args.deep_view();
                let val = eq.remove(1);
                proof {
                    lemma_deep_chars(val);
                    assert(val.deep_view() == eqdv[1]);
                    assert(val@ == ep[1]);
                }
                pos_args.push(val);
                proof {
                    assert(pos_args.deep_view() =~= old_pos.push(ep[1]));
                    assert(positional_args_from(pdv, t0) =~= seq![ep[1]] + positional_args_from(
                        pdv,
                        t0 + 1,
                    ));
                    assert(old_pos + positional_args_from(pdv, t0) =~= pos_args.deep_view()
                        + positional_args_from(pdv, t0 + 1));
                }
            } else {
                let ghost old_named = named_args.deep_view();
                let key = string_of(&eq[0]);
                let value = string_of(&eq[1]);
                proof {
                    lemma_deep_chars(eq@[0]);
                    lemma_deep_chars(eq@[1]);
                    assert(eq@[0]@ == ep[0]);
                    assert(eq@[1]@ == ep[1]);
                    assert(key@ == ep[0]);
                    assert(value@ == ep[1]);
                }
                named_args.push(NamedArg { key, value });
                proof {
                    assert(named_args.deep_view() =~= old_named.push(
                        NamedArgModel { key: ep[0], value: ep[1] },
                    ));
                    assert(named_args_from(pdv, t0) =~= seq![
                        NamedArgModel { key: ep[0], value: ep[1] },
                    ] + named_args_from(pdv, t0 + 1));
                    assert(old_named + named_args_from(pdv, t0) =~= named_args.deep_view()
                        + named_args_from(pdv, t0 + 1));
                }
            }
        } else {
            let ghost old_pos = pos_args.deep_view();
            let val = eq.remove(0);
            proof {
                lemma_deep_chars(val);
                assert(val.deep_view() == eqdv[0]);
                assert(val@ == ep[0]);
            }
            pos_args.push(val);
            proof {
                assert(pos_args.deep_view() =~= old_pos.push(ep[0]));
                assert(positional_args_from(pdv, t0) =~= seq![ep[0]] + positional_args_from(
                    pdv,
                    t0 + 1,
                ));
                assert(old_pos + positional_args_from(pdv, t0) =~= pos_args.deep_view()
                    + positional_args_from(pdv, t0 + 1));
            }
        }
        t = t + 1;
    }
    proof {
        assert(pos_args.deep_view() + positional_args_from(pdv, pdv.len() as int)
            =~= pos_args.deep_view());
        assert(named_args.deep_view() + named_args_from(pdv, pdv.len() as int)
            =~= named_args.deep_view());
    }

    let text_chars = chars_of(chosen.text.as_str());
    let mut rendered = substitute(&text_chars, &vars, &pos_args, &named_args);
    proof {
        assert(cfg.expansions.deep_view()[k as int] == cfg.expansions@[k as int]@);
        assert(rendered@ == rendered_text(chosen.text@, pdv));
    }
    let append_chars = chars_of(signal.append.as_str());
    append_all(&mut rendered, &append_chars);
    let insert = string_of(&rendered);

    let n1 = seq_chars.len();
    let n2 = append_chars.len();
    let backspace_count: usize = n1 + n2 + 1 + (if signal.append_enter {
        1
    } else {
        0
    });

    let settle: u64 = if str_eq(os, "windows") {
        proof {
            reveal_strlit("windows");
            assert(os@ =~= seq!['w', 'i', 'n', 'd', 'o', 'w', 's']);
        }
        0
    } else {
        proof {
            reveal_strlit("windows");
            assert("windows"@ =~= seq!['w', 'i', 'n', 'd', 'o', 'w', 's']);
        }
        let wide: u128 = (backspace_count as u128) * 5;
        let capped: u64 = if wide > u64::MAX as u128 {
            u64::MAX
        } else {
            wide as u64
        };
        if capped < 50 {
            50
        } else {
            capped
        }
    };

    let plan = ExpansionPlan {
        backspace_count,
        insert,
        press_enter: signal.append_enter,
        settle_millis: settle,
    };
    proof {
        assert(plan@.insert =~= rendered_text(cfg.expansions.deep_view()[k as int].text, pdv)
            + signal@.append);
        assert(plan@.backspace_count == deletion_count(signal@));
        assert(plan@.settle_millis == settle_millis(deletion_count(signal@), os@));
    }
    Some(plan)
}

} // verus!
