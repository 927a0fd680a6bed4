use vstd::prelude::*;
use vstd::string::StringExecFns;

verus! {

/// A piece of text on screen.
#[derive(Clone, Debug)]
pub struct UiText {
    pub text: String,
    pub shadow: bool,
}

impl UiText {
    pub fn new(text: String) -> (r: UiText)
        ensures
            r.text@ == text@,
            !r.shadow,
    {
        UiText { text, shadow: false }
    }
}

/// The keys a list reacts to; every other key is `Other`.
#[derive(Clone, Copy, Debug, PartialEq, Eq, Structural)]
pub enum UiKey {
    Escape,
    Return,
    Up,
    Down,
    K,
    J,
    Other,
}

/// What a UI element did with an input event.
#[derive(Clone, Copy, Debug, PartialEq, Eq, Structural)]
pub enum EventResult {
    Ignored,
    Consumed,
    Done,
    Canceled,
}

/// A vertical list of texts with one selected entry.
pub struct UiList {
    items: Vec<UiText>,
    selected: usize,
}

impl UiList {
    /// Number of entries.
    pub closed spec fn len_spec(&self) -> nat {
        self.items@.len()
    }

    /// Position of the selected entry.
    pub closed spec fn selected_spec(&self) -> nat {
        self.selected as nat
    }

    /// Text of entry `i`.
    pub closed spec fn text_at(&self, i: int) -> Seq<char> {
        self.items@[i].text@
    }

    /// Shadow flag of entry `i`.
    pub closed spec fn shadow_at(&self, i: int) -> bool {
        self.items@[i].shadow
    }

    /// The entries, text and shadow flag, are those of `other`.
    pub open spec fn same_entries(&self, other: &UiList) -> bool {
        &&& self.len_spec() == other.len_spec()
        &&& forall|i: int|
            0 <= i < self.len_spec() ==> #[trigger] self.text_at(i) == other.text_at(i)
                && self.shadow_at(i) == other.shadow_at(i)
    }

    /// The selection lies on an entry, or at zero in an empty list.
    pub closed spec fn wf(&self) -> bool {
        self.selected == 0 || self.selected < self.items@.len()
    }

    /// One entry per string, the first selected.
    pub fn new(items: Vec<String>) -> (r: UiList)
        ensures
            r.wf(),
            r.len_spec() == items@.len(),
            r.selected_spec() == 0,
            forall|i: int| 0 <= i < items@.len() ==> #[trigger] r.text_at(i) == items@[i]@,
            forall|i: int| 0 <= i < items@.len() ==> !#[trigger] r.shadow_at(i),
    {
        let mut text_items: Vec<UiText> = Vec::new();
        let mut i: usize = 0;
        while i < items.len()
            invariant
                i <= items@.len(),
                text_items@.len() == i,
                forall|k: int| 0 <= k < i ==> #[trigger] text_items@[k].text@ == items@[k]@,
                forall|k: int| 0 <= k < i ==> !#[trigger] text_items@[k].shadow,
            decreases items@.len() - i,
        {
            let text = UiText::new(items[i].clone());
            text_items.push(text);
            i += 1;
        }
        UiList { items: text_items, selected: 0 }
    }

    /// Moves the selection one entry down, stopping at the last.
    pub fn select_next(&mut self)
        requires
            old(self).wf(),
        ensures
            final(self).wf(),
            final(self).len_spec() == old(self).len_spec(),
            final(self).same_entries(old(self)),
            final(self).selected_spec() == if old(self).selected_spec() + 1 < old(self).len_spec() {
                old(self).selected_spec() + 1
            } else {
                old(self).selected_spec()
            },
    {
        if self.items.len() == 0 {
            return;
        }
        if self.selected == self.items.len() - 1 {
            return;
        }
        self.selected += 1;
    }

    /// Moves the selection one entry up, stopping at the first.
    pub fn select_prev(&mut self)
        requires
            old(self).wf(),
        ensures
            final(self).wf(),
            final(self).len_spec() == old(self).len_spec(),
            final(self).same_entries(old(self)),
            final(self).selected_spec() == if old(self).selected_spec() > 0 {
                old(self).selected_spec() - 1
            } else {
                0
            },
    {
        if self.items.len() == 0 {
            return;
        }
        if self.selected == 0 {
            return;
        }
        self.selected -= 1;
    }

    /// The selected entry; none in an empty list.
    pub fn get_selected(&self) -> (r: Option<&UiText>)
        requires
            self.wf(),
        ensures
            self.len_spec() == 0 ==> r is None,
            self.len_spec() > 0 ==> r is Some && r->Some_0.text@ == self.text_at(
                self.selected_spec() as int,
            ),
    {
        if self.items.len() == 0 {
            return None;
        }
        Some(&self.items[self.selected])
    }

    /// Handles a key press: escape cancels, return confirms, up / `K` and
    /// down / `J` move the selection; other keys are ignored.
    pub fn update(code: &UiKey, list: &mut UiList) -> (r: EventResult)
        requires
            old(list).wf(),
        ensures
            final(list).wf(),
            final(list).len_spec() == old(list).len_spec(),
            final(list).same_entries(old(list)),
            *code == UiKey::Escape ==> r == EventResult::Canceled,
            *code == UiKey::Return ==> r == EventResult::Done,
            (*code == UiKey::Up || *code == UiKey::K) ==> r == EventResult::Consumed
                && final(list).selected_spec() == if old(list).selected_spec() > 0 {
                old(list).selected_spec() - 1
            } else {
                0
            },
            (*code == UiKey::Down || *code == UiKey::J) ==> r == EventResult::Consumed
                && final(list).selected_spec() == if old(list).selected_spec() + 1 < old(list).len_spec() {
                old(list).selected_spec() + 1
            } else {
                old(list).selected_spec()
            },
            *code == UiKey::Other ==> r == EventResult::Ignored,
            !(*code == UiKey::Up || *code == UiKey::K || *code == UiKey::Down || *code == UiKey::J)
                ==> final(list).selected_spec() == old(list).selected_spec(),
    {
        match code {
            UiKey::Escape => EventResult::Canceled,
            UiKey::Return => EventResult::Done,
            UiKey::Up | UiKey::K => {
                list.select_prev();
                EventResult::Consumed
            },
            UiKey::Down | UiKey::J => {
                list.select_next();
                EventResult::Consumed
            },
            UiKey::Other => EventResult::Ignored,
        }
    }

    /// Position of the selected entry; none in an empty list.
    pub fn get_selected_idx(&self) -> (r: Option<usize>)
        ensures
            self.len_spec() == 0 ==> r is None,
            self.len_spec() > 0 ==> r == Some(self.selected_spec() as usize),
    {
        if self.items.len() == 0 {
            return None;
        }
        Some(self.selected)
    }
}

/// The text of the debug log window.
pub struct LogWindow {
    buf: String,
    scroll_to_bottom: bool,
}

impl View for LogWindow {
    type V = Seq<char>;

    closed spec fn view(&self) -> Seq<char> {
        self.buf@
    }
}

impl LogWindow {
    pub fn new() -> (r: LogWindow)
        ensures
            r@ == Seq::<char>::empty(),
    {
        LogWindow { buf: String::new(), scroll_to_bottom: true }
    }

    /// Appends `s` to the log.
    pub fn add(&mut self, s: &str)
        ensures
            final(self)@ == old(self)@ + s@,
    {
        self.buf.append(s);
    }

    /// Empties the log.
    pub fn clear(&mut self)
        ensures
            final(self)@ == Seq::<char>::empty(),
    {
        self.buf = String::new();
    }

    /// The whole log text.
    pub fn text(&self) -> (r: &str)
        ensures
            r@ == self@,
    {
        self.buf.as_str()
    }
}

} // verus!
