//! The editor's save decisions: debounced auto-save, immediate saves, and
//! what was last saved.
//!
//! The editor hands each event to [`autosave_step`] and performs the action
//! it gets back: it waits and reports the timer, or writes the note and
//! reports how the write went.
use vstd::prelude::*;
use crate::text::{chars_of, string_from_chars};
use crate::wikilink::eq_chars;

verus! {

/// What the save logic keeps: the debounce counter, and the text the note
/// was loaded with or last saved as.
pub struct AutoSaveState {
    /// Bumped by every debounced edit; a pending save fires only if no edit
    /// came after it.
    pub version: u32,
    /// The text on disk, as far as the editor knows.
    pub saved: String,
}

/// What happens in the editor.
pub enum EditorEvent {
    /// A note was opened with this text.
    NoteOpened { body: String },
    /// The text was edited; auto-save is on or off, with this delay.
    Edited { text: String, auto_save: bool, delay_ms: u32 },
    /// The delay of a scheduled save with this version ran out.
    TimerFired { version: u32, text: String },
    /// An immediate save was asked for (blur, Ctrl+S, leaving edit mode).
    SaveRequested { text: String },
    /// Writing this text succeeded.
    SaveSucceeded { text: String },
    /// Writing failed.
    SaveFailed,
}

/// What the editor is to do next.
pub enum SaveAction {
    /// Nothing.
    Nothing,
    /// Wait `delay_ms`, then report `TimerFired` with this version and text.
    Schedule { version: u32, delay_ms: u32, text: String },
    /// Write this text to the note.
    Save { text: String },
}

/// The abstract state.
pub struct AutoSaveView {
    pub version: u32,
    pub saved: Seq<char>,
}

/// The abstract event.
pub enum EventView {
    NoteOpened { body: Seq<char> },
    Edited { text: Seq<char>, auto_save: bool, delay_ms: u32 },
    TimerFired { version: u32, text: Seq<char> },
    SaveRequested { text: Seq<char> },
    SaveSucceeded { text: Seq<char> },
    SaveFailed,
}

/// The abstract action.
pub enum ActionView {
    Nothing,
    Schedule { version: u32, delay_ms: u32, text: Seq<char> },
    Save { text: Seq<char> },
}

impl View for AutoSaveState {
    type V = AutoSaveView;

    open spec fn view(&self) -> AutoSaveView {
        AutoSaveView { version: self.version, saved: self.saved@ }
    }
}

impl View for EditorEvent {
    type V = EventView;

    open spec fn view(&self) -> EventView {
        match self {
            EditorEvent::NoteOpened { body } => EventView::NoteOpened { body: body@ },
            EditorEvent::Edited { text, auto_save, delay_ms } => EventView::Edited {
                text: text@,
                auto_save: *auto_save,
                delay_ms: *delay_ms,
            },
            EditorEvent::TimerFired { version, text } => EventView::TimerFired {
                version: *version,
                text: text@,
            },
            EditorEvent::SaveRequested { text } => EventView::SaveRequested { text: text@ },
            EditorEvent::SaveSucceeded { text } => EventView::SaveSucceeded { text: text@ },
            EditorEvent::SaveFailed => EventView::SaveFailed,
        }
    }
}

impl View for SaveAction {
    type V = ActionView;

    open spec fn view(&self) -> ActionView {
        match self {
            SaveAction::Nothing => ActionView::Nothing,
            SaveAction::Schedule { version, delay_ms, text } => ActionView::Schedule {
                version: *version,
                delay_ms: *delay_ms,
                text: text@,
            },
            SaveAction::Save { text } => ActionView::Save { text: text@ },
        }
    }
}

/// A counter step that wraps around at the end of `u32`.
pub open spec fn bumped(v: u32, by: u32) -> u32 {
    ((v as int + by as int) % 0x1_0000_0000) as u32
}

/// An immediate save writes the text only when it differs from the saved one.
pub open spec fn save_if_changed(s: AutoSaveView, text: Seq<char>) -> ActionView {
    if text != s.saved {
        ActionView::Save { text }
    } else {
        ActionView::Nothing
    }
}

/// The next state and action of the save logic.
///
/// Opening a note takes its text as saved and moves the counter on by 100,
/// so that no save scheduled for the previous note fires.  An edit with
/// auto-save on bumps the counter and schedules a save with the new value;
/// with auto-save off it does nothing.  A timer whose version is still the
/// current one saves (if the text changed); an older one does nothing.  A
/// requested save saves if the text changed.  A successful write makes its
/// text the saved one.
pub open spec fn autosave_spec(s: AutoSaveView, ev: EventView) -> (AutoSaveView, ActionView) {
    match ev {
        EventView::NoteOpened { body } => (
            AutoSaveView { version: bumped(s.version, 100), saved: body },
            ActionView::Nothing,
        ),
        EventView::Edited { text, auto_save, delay_ms } => if !auto_save {
            (s, ActionView::Nothing)
        } else {
            let v = bumped(s.version, 1);
            (
                AutoSaveView { version: v, saved: s.saved },
                ActionView::Schedule { version: v, delay_ms, text },
            )
        },
        EventView::TimerFired { version, text } => if version == s.version {
            (s, save_if_changed(s, text))
        } else {
            (s, ActionView::Nothing)
        },
        EventView::SaveRequested { text } => (s, save_if_changed(s, text)),
        EventView::SaveSucceeded { text } => (
            AutoSaveView { version: s.version, saved: text },
            ActionView::Nothing,
        ),
        EventView::SaveFailed => (s, ActionView::Nothing),
    }
}

fn differs(a: &String, b: &String) -> (r: bool)
    ensures
        r == (a@ != b@),
{
    let x = chars_of(a.as_str());
    let y = chars_of(b.as_str());
    !eq_chars(x.as_slice(), y.as_slice())
}

fn save_if_changed_exec(s: &AutoSaveState, text: String) -> (r: SaveAction)
    ensures
        r@ == save_if_changed(s@, text@),
{
    if differs(&text, &s.saved) {
        SaveAction::Save { text }
    } else {
        SaveAction::Nothing
    }
}

/// One step of the save logic: the next state and the action to perform.
pub fn autosave_step(s: AutoSaveState, ev: EditorEvent) -> (r: (AutoSaveState, SaveAction))
    ensures
        (r.0@, r.1@) == autosave_spec(s@, ev@),
{
    match ev {
        EditorEvent::NoteOpened { body } => {
            let version = s.version.wrapping_add(100);
            (AutoSaveState { version, saved: body }, SaveAction::Nothing)
        },
        EditorEvent::Edited { text, auto_save, delay_ms } => {
            if !auto_save {
                (s, SaveAction::Nothing)
            } else {
                let v = s.version.wrapping_add(1);
                (
                    AutoSaveState { version: v, saved: s.saved },
                    SaveAction::Schedule { version: v, delay_ms, text },
                )
            }
        },
        EditorEvent::TimerFired { version, text } => {
            if version == s.version {
                let a = save_if_changed_exec(&s, text);
                (s, a)
            } else {
                (s, SaveAction::Nothing)
            }
        },
        EditorEvent::SaveRequested { text } => {
            let a = save_if_changed_exec(&s, text);
            (s, a)
        },
        EditorEvent::SaveSucceeded { text } => (
            AutoSaveState { version: s.version, saved: text },
            SaveAction::Nothing,
        ),
        EditorEvent::SaveFailed => (s, SaveAction::Nothing),
    }
}

/// Whether the editor holds changes that are not saved.
pub fn has_unsaved(s: &AutoSaveState, text: &String) -> (r: bool)
    ensures
        r == (text@ != s.saved@),
{
    differs(text, &s.saved)
}

/// The text the preview shows: the edited text, or the saved one while the
/// edited text is empty and the saved one is not.
pub fn preview_source(edited: &String, saved: &String) -> (r: String)
    ensures
        r@ == if edited@.len() == 0 && saved@.len() != 0 {
            saved@
        } else {
            edited@
        },
{
    let e = chars_of(edited.as_str());
    let s = chars_of(saved.as_str());
    if e.len() == 0 && s.len() != 0 {
        string_from_chars(s)
    } else {
        string_from_chars(e)
    }
}

/// A scheduled save fires only if no edit and no note switch came after it:
/// after an edit schedules a save, any later debounced edit makes the first
/// timer do nothing.
pub proof fn law_later_edit_cancels_pending_save(
    s: AutoSaveView,
    t1: Seq<char>,
    t2: Seq<char>,
    d1: u32,
    d2: u32,
)
    ensures
        ({
            let (s1, a1) = autosave_spec(s, EventView::Edited { text: t1, auto_save: true, delay_ms: d1 });
            let (s2, _a2) = autosave_spec(s1, EventView::Edited { text: t2, auto_save: true, delay_ms: d2 });
            &&& a1 matches ActionView::Schedule { version, .. }
            &&& (a1 matches ActionView::Schedule { version, .. } ==> autosave_spec(
                s2,
                EventView::TimerFired { version, text: t1 },
            ).1 == ActionView::Nothing)
            &&& autosave_spec(s2, EventView::TimerFired { version: s2.version, text: t2 }).1
                == save_if_changed(s2, t2)
        }),
{
    assert(bumped(bumped(s.version, 1), 1) != bumped(s.version, 1));
}

/// Saving what is already saved writes nothing; after a successful write
/// the same text is not written again.
pub proof fn law_no_redundant_save(s: AutoSaveView, t: Seq<char>)
    ensures
        autosave_spec(s, EventView::SaveRequested { text: s.saved }).1 == ActionView::Nothing,
        ({
            let (s1, _) = autosave_spec(s, EventView::SaveSucceeded { text: t });
            autosave_spec(s1, EventView::SaveRequested { text: t }).1 == ActionView::Nothing
        }),
{
}

} // verus!
