//! The capture state machine. A single-threaded stream of keyboard events
//! drives two states, idle and capturing: the trigger string starts a
//! capture, characters accumulate in the buffer, and a confirmation gesture
//! (a confirm character, enter, right arrow, or a unique auto-confirmed
//! abbreviation) emits a `CaptureSignal` for the expansion engine.
//! `capture_step` is the spec-level decision table; `handle_event` is the
//! verified executable transition.

use vstd::prelude::*;
use crate::settings::{AppSettings, Expansion, ExpansionModel, SettingsModel};
use crate::template::{has_loose_var, has_loose_variable};
use crate::text::{append_all, chars_eq, chars_of, starts_with_chars, str_eq, string_of};

verus! {

/// The keys the state machine distinguishes.
#[derive(Clone, Copy, Debug)]
pub enum Key {
    Return,
    RightArrow,
    Escape,
    Backspace,
    Other,
}

/// The kind of a keyboard event.
#[derive(Clone, Copy, Debug)]
pub enum EventKind {
    KeyPress(Key),
    KeyRelease(Key),
    Other,
}

/// One keyboard event: its kind, and the textual rendering of the key under
/// the current layout, absent for non-character keys.
pub struct InputEvent {
    pub kind: EventKind,
    pub name: Option<String>,
}

/// Spec model of a keyboard event.
pub struct EventModel {
    pub kind: EventKind,
    pub name: Option<Seq<char>>,
}

impl View for InputEvent {
    type V = EventModel;

    open spec fn view(&self) -> EventModel {
        EventModel {
            kind: self.kind,
            name: match self.name {
                Some(n) => Some(n@),
                None => None,
            },
        }
    }
}

/// A finished capture, handed to the expansion engine: the captured
/// sequence, the confirm character to echo after the expansion (possibly
/// empty), and whether an enter press is to be replayed.
pub struct CaptureSignal {
    pub sequence: String,
    pub append: String,
    pub append_enter: bool,
}

/// Spec model of a finished capture.
pub struct SignalModel {
    pub sequence: Seq<char>,
    pub append: Seq<char>,
    pub append_enter: bool,
}

impl View for CaptureSignal {
    type V = SignalModel;

    open spec fn view(&self) -> SignalModel {
        SignalModel { sequence: self.sequence@, append: self.append@, append_enter: self.append_enter }
    }
}

impl DeepView for CaptureSignal {
    type V = SignalModel;

    open spec fn deep_view(&self) -> SignalModel {
        self.view()
    }
}

/// The state machine: the accumulating buffer and whether a capture is open.
pub struct CaptureState {
    pub sequence: Vec<char>,
    pub is_capturing: bool,
}

/// Spec model of the state machine.
pub struct CaptureModel {
    pub sequence: Seq<char>,
    pub is_capturing: bool,
}

impl View for CaptureState {
    type V = CaptureModel;

    open spec fn view(&self) -> CaptureModel {
        CaptureModel { sequence: self.sequence@, is_capturing: self.is_capturing }
    }
}

/// One transition's outcome: the next state and the emitted signal, if any.
pub struct StepModel {
    pub state: CaptureModel,
    pub signal: Option<SignalModel>,
}

/// Whether `s` is one of the strings in `list`.
pub open spec fn has_string(list: Seq<Seq<char>>, s: Seq<char>) -> bool {
    exists|i: int| 0 <= i < list.len() && list[i] == s
}

/// The first expansion whose abbreviation equals `buf`, scanning from `i`.
pub open spec fn first_match_from(exps: Seq<ExpansionModel>, buf: Seq<char>, i: int) -> Option<
    ExpansionModel,
>
    decreases exps.len() - i,
{
    if i < 0 || i >= exps.len() {
        None
    } else if exps[i].abbr == buf {
        Some(exps[i])
    } else {
        first_match_from(exps, buf, i + 1)
    }
}

/// How many of the first `i` expansions have an abbreviation starting with
/// `buf`.
pub open spec fn prefix_count_upto(exps: Seq<ExpansionModel>, buf: Seq<char>, i: int) -> nat
    decreases i,
{
    if i <= 0 {
        0
    } else {
        prefix_count_upto(exps, buf, i - 1) + (if buf.is_prefix_of(exps[i - 1].abbr) {
            1nat
        } else {
            0nat
        })
    }
}

/// Auto-confirm fires on `buf`: some expansion's abbreviation equals `buf`,
/// it is the only one whose abbreviation starts with `buf`, and its template
/// holds no loose placeholder.
pub open spec fn auto_confirm_fires(exps: Seq<ExpansionModel>, buf: Seq<char>) -> bool {
    match first_match_from(exps, buf, 0) {
        Some(e) => prefix_count_upto(exps, buf, exps.len() as int) == 1 && !has_loose_variable(
            e.text,
        ),
        None => false,
    }
}

/// The idle state.
pub open spec fn idle_state() -> CaptureModel {
    CaptureModel { sequence: Seq::<char>::empty(), is_capturing: false }
}

/// The per-event decision table, evaluated top to bottom, first match wins:
/// an empty trigger ignores everything; enter/right-arrow confirm an open
/// capture when enabled; escape cancels; backspace pops the buffer or closes
/// an emptied capture; a confirm character emits the buffer (echoing the
/// character when configured); any other named character extends the buffer
/// and may auto-confirm; the trigger string opens a capture from idle.
pub open spec fn capture_step(st: CaptureModel, ev: EventModel, cfg: SettingsModel) -> StepModel {
    if cfg.trigger.len() == 0 {
        StepModel { state: st, signal: None }
    } else if ev.kind == EventKind::KeyPress(Key::Return) || ev.kind == EventKind::KeyPress(
        Key::RightArrow,
    ) {
        if !st.is_capturing {
            StepModel { state: st, signal: None }
        } else if (ev.kind == EventKind::KeyPress(Key::RightArrow) && !cfg.key_right_arrow) || (
        ev.kind == EventKind::KeyPress(Key::Return) && !cfg.key_enter) {
            StepModel { state: st, signal: None }
        } else {
            StepModel {
                state: idle_state(),
                signal: Some(
                    SignalModel {
                        sequence: st.sequence,
                        append: Seq::<char>::empty(),
                        append_enter: ev.kind == EventKind::KeyPress(Key::Return),
                    },
                ),
            }
        }
    } else if ev.kind == EventKind::KeyPress(Key::Escape) {
        if st.is_capturing {
            StepModel { state: idle_state(), signal: None }
        } else {
            StepModel { state: st, signal: None }
        }
    } else if ev.kind == EventKind::KeyPress(Key::Backspace) {
        if !st.is_capturing {
            StepModel { state: st, signal: None }
        } else if st.sequence.len() == 0 {
            StepModel {
                state: CaptureModel { sequence: st.sequence, is_capturing: false },
                signal: None,
            }
        } else {
            StepModel {
                state: CaptureModel { sequence: st.sequence.drop_last(), is_capturing: true },
                signal: None,
            }
        }
    } else {
        match ev.name {
            None => StepModel { state: st, signal: None },
            Some(name) => if name.len() == 0 {
                StepModel { state: st, signal: None }
            } else if st.is_capturing {
                if has_string(cfg.confirm_chars, name) {
                    StepModel {
                        state: idle_state(),
                        signal: Some(
                            SignalModel {
                                sequence: st.sequence,
                                append: if cfg.append {
                                    name
                                } else {
                                    Seq::<char>::empty()
                                },
                                append_enter: false,
                            },
                        ),
                    }
                } else {
                    let buf = st.sequence + name;
                    if cfg.auto && auto_confirm_fires(cfg.expansions, buf) {
                        StepModel {
                            state: idle_state(),
                            signal: Some(
                                SignalModel {
                                    sequence: buf,
                                    append: Seq::<char>::empty(),
                                    append_enter: false,
                                },
                            ),
                        }
                    } else {
                        StepModel {
                            state: CaptureModel { sequence: buf, is_capturing: true },
                            signal: None,
                        }
                    }
                }
            } else {
                if name == cfg.trigger {
                    StepModel {
                        state: CaptureModel { sequence: Seq::<char>::empty(), is_capturing: true },
                        signal: None,
                    }
                } else {
                    StepModel { state: st, signal: None }
                }
            },
        }
    }
}

/// The machine run over a whole event sequence: the final state and the
/// signals emitted along the way, in order.
pub struct RunModel {
    pub state: CaptureModel,
    pub signals: Seq<SignalModel>,
}

/// Folds `capture_step` over `evs` from state `st`.
pub open spec fn run_capture(st: CaptureModel, evs: Seq<EventModel>, cfg: SettingsModel) -> RunModel
    decreases evs.len(),
{
    if evs.len() == 0 {
        RunModel { state: st, signals: Seq::<SignalModel>::empty() }
    } else {
        let first = capture_step(st, evs[0], cfg);
        let rest = run_capture(first.state, evs.drop_first(), cfg);
        RunModel {
            state: rest.state,
            signals: (match first.signal {
                Some(s) => seq![s],
                None => Seq::<SignalModel>::empty(),
            }) + rest.signals,
        }
    }
}

/// The buffer is empty whenever the machine is idle.
pub open spec fn buffer_empty_when_idle(st: CaptureModel) -> bool {
    !st.is_capturing ==> st.sequence.len() == 0
}

/// Law: one step of the decision table preserves "the buffer is empty
/// whenever the machine is idle".
pub proof fn lemma_step_preserves_buffer_empty(st: CaptureModel, ev: EventModel, cfg: SettingsModel)
    requires
        buffer_empty_when_idle(st),
    ensures
        buffer_empty_when_idle(capture_step(st, ev, cfg).state),
{
}

/// Law: over every event sequence, the buffer is empty whenever the machine
/// is idle, provided it starts that way (as the fresh machine does).
pub proof fn lemma_run_buffer_empty(st: CaptureModel, evs: Seq<EventModel>, cfg: SettingsModel)
    requires
        buffer_empty_when_idle(st),
    ensures
        buffer_empty_when_idle(run_capture(st, evs, cfg).state),
    decreases evs.len(),
{
    if evs.len() > 0 {
        lemma_step_preserves_buffer_empty(st, evs[0], cfg);
        lemma_run_buffer_empty(capture_step(st, evs[0], cfg).state, evs.drop_first(), cfg);
    }
}

/// Law: from idle, an event sequence in which no event renders the trigger
/// string produces no signal at all, and the machine stays idle.
pub proof fn lemma_no_trigger_no_signal(st: CaptureModel, evs: Seq<EventModel>, cfg: SettingsModel)
    requires
        !st.is_capturing,
        forall|i: int| 0 <= i < evs.len() ==> evs[i].name != Some(cfg.trigger),
    ensures
        run_capture(st, evs, cfg).signals.len() == 0,
        !run_capture(st, evs, cfg).state.is_capturing,
    decreases evs.len(),
{
    if evs.len() > 0 {
        let first = capture_step(st, evs[0], cfg);
        assert(evs[0].name != Some(cfg.trigger));
        assert(first.signal is None && !first.state.is_capturing);
        assert forall|i: int| 0 <= i < evs.drop_first().len() implies evs.drop_first()[i].name
            != Some(cfg.trigger) by {
            assert(evs.drop_first()[i] == evs[i + 1]);
        }
        lemma_no_trigger_no_signal(first.state, evs.drop_first(), cfg);
    }
}

/// Whether `s` equals one of the strings in `list`.
#[verifier::loop_isolation(false)]
fn contains_str(list: &Vec<String>, s: &str) -> (r: bool)
    ensures
        r == has_string(list.deep_view(), s@),
{
    let mut i: usize = 0;
    while i < list.len()
        invariant
            i <= list@.len(),
            forall|j: int| 0 <= j < i ==> list.deep_view()[j] != s@,
        decreases list@.len() - i,
    {
        let hit = str_eq(list[i].as_str(), s);
        proof {
            assert(list.deep_view()[i as int] == list@[i as int]@);
        }
        if hit {
            proof {
                assert(has_string(list.deep_view(), s@));
            }
            return true;
        }
        i = i + 1;
    }
    false
}

/// Whether auto-confirm fires for buffer `buf` under `exps`.
#[verifier::loop_isolation(false)]
fn auto_confirm_check(exps: &Vec<Expansion>, buf: &Vec<char>) -> (r: bool)
    ensures
        r == auto_confirm_fires(exps.deep_view(), buf@),
{
    let ghost dv = exps.deep_view();
    let mut found: Option<usize> = None;
    let mut count: usize = 0;
    let mut i: usize = 0;
    while i < exps.len()
        invariant
            i <= exps@.len(),
            dv == exps.deep_view(),
            dv.len() == exps@.len(),
            count <= i,
            count == prefix_count_upto(dv, buf@, i as int),
            match found {
                Some(k) => 0 <= k < i && first_match_from(dv, buf@, 0) == Some(dv[k as int]),
                None => first_match_from(dv, buf@, 0) == first_match_from(dv, buf@, i as int),
            },
        decreases exps@.len() - i,
    {
        let abbr_chars = chars_of(exps[i].abbr.as_str());
        if starts_with_chars(&abbr_chars, buf) {
            count = count + 1;
        }
        if found.is_none() && chars_eq(&abbr_chars, buf) {
            found = Some(i);
        }
        proof {
            assert(dv[i as int] == exps@[i as int].deep_view());
        }
        i = i + 1;
    }
    match found {
        None => {
            proof {
                assert(first_match_from(dv, buf@, exps@.len() as int) is None);
            }
            false
        },
        Some(k) => {
            if count != 1 {
                return false;
            }
            let text_chars = chars_of(exps[k].text.as_str());
            let loose = has_loose_var(&text_chars);
            proof {
                assert(dv[k as int] == exps@[k as int].deep_view());
            }
            !loose
        },
    }
}

impl CaptureState {
    /// A fresh machine: idle, with an empty buffer.
    pub fn new() -> (s: Self)
        ensures
            s@ == idle_state(),
    {
        let s = CaptureState { sequence: Vec::new(), is_capturing: false };
        proof {
            assert(s@.sequence =~= idle_state().sequence);
        }
        s
    }

    /// Feeds one keyboard event to the machine under the given settings
    /// snapshot; the new state and the emitted signal are exactly those of
    /// the `capture_step` decision table.
    pub fn handle_event(&mut self, ev: &InputEvent, cfg: &AppSettings) -> (sig: Option<
        CaptureSignal,
    >)
        ensures
            final(self)@ == capture_step(old(self)@, ev@, cfg@).state,
            sig.deep_view() == capture_step(old(self)@, ev@, cfg@).signal,
    {
        if cfg.trigger.string.as_str().is_empty() {
            return None;
        }
        match ev.kind {
            EventKind::KeyPress(Key::Return) | EventKind::KeyPress(Key::RightArrow) => {
                if !self.is_capturing {
                    return None;
                }
                let is_return = match ev.kind {
                    EventKind::KeyPress(Key::Return) => true,
                    _ => false,
                };
                if (!cfg.confirm.key_right_arrow && !is_return) || (!cfg.confirm.key_enter
                    && is_return) {
                    return None;
                }
                let seq_str = string_of(&self.sequence);
                self.sequence = Vec::new();
                self.is_capturing = false;
                proof {
                    assert(self@.sequence =~= idle_state().sequence);
                }
                return Some(
                    CaptureSignal {
                        sequence: seq_str,
                        append: String::new(),
                        append_enter: is_return,
                    },
                );
            },
            EventKind::KeyPress(Key::Escape) => {
                if !self.is_capturing {
                    return None;
                }
                self.sequence = Vec::new();
                self.is_capturing = false;
                proof {
                    assert(self@.sequence =~= idle_state().sequence);
                }
                return None;
            },
            EventKind::KeyPress(Key::Backspace) => {
                if !self.is_capturing {
                    return None;
                }
                if self.sequence.len() == 0 {
                    self.is_capturing = false;
                } else {
                    self.sequence.pop();
                }
                return None;
            },
            _ => {},
        }
        match &ev.name {
            None => None,
            Some(name) => {
                if name.as_str().is_empty() {
                    return None;
                }
                if self.is_capturing {
                    if contains_str(&cfg.confirm.chars, name.as_str()) {
                        let seq_str = string_of(&self.sequence);
                        let append = if cfg.confirm.append {
                            name.clone()
                        } else {
                            String::new()
                        };
                        self.sequence = Vec::new();
                        self.is_capturing = false;
                        proof {
                            assert(self@.sequence =~= idle_state().sequence);
                        }
                        Some(CaptureSignal { sequence: seq_str, append, append_enter: false })
                    } else {
                        let name_chars = chars_of(name.as_str());
                        append_all(&mut self.sequence, &name_chars);
                        if cfg.confirm.auto && auto_confirm_check(
                            &cfg.expansions,
                            &self.sequence,
                        ) {
                            let seq_str = string_of(&self.sequence);
                            self.sequence = Vec::new();
                            self.is_capturing = false;
                            proof {
                                assert(self@.sequence =~= idle_state().sequence);
                            }
                            Some(
                                CaptureSignal {
                                    sequence: seq_str,
                                    append: String::new(),
                                    append_enter: false,
                                },
                            )
                        } else {
                            None
                        }
                    }
                } else {
                    if str_eq(name.as_str(), cfg.trigger.string.as_str()) {
                        self.sequence = Vec::new();
                        self.is_capturing = true;
                        proof {
                            assert(self@.sequence =~= Seq::<char>::empty());
                        }
                    }
                    None
                }
            },
        }
    }
}

} // verus!
