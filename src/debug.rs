use vstd::prelude::*;
use vstd::string::StringExecFns;

verus! {

/// Text shown in the debug overlay, collected between two frames: lines
/// added since the last `pop_text`, joined by newlines.
pub struct DebugText {
    text: Option<String>,
}

impl View for DebugText {
    type V = Option<Seq<char>>;

    closed spec fn view(&self) -> Option<Seq<char>> {
        match self.text {
            Some(t) => Some(t@),
            None => None,
        }
    }
}

impl DebugText {
    pub fn new() -> (r: DebugText)
        ensures
            r@ is None,
    {
        DebugText { text: None }
    }

    /// Takes the collected text out, leaving none.
    pub fn pop_text(&mut self) -> (r: Option<String>)
        ensures
            final(self)@ is None,
            old(self)@ is None ==> r is None,
            old(self)@ is Some ==> r is Some && r->Some_0@ == old(self)@->Some_0,
    {
        self.text.take()
    }

    /// Adds a line below the collected text.
    pub fn add_text(&mut self, text: String)
        ensures
            old(self)@ is None ==> final(self)@ == Some(text@),
            old(self)@ is Some ==> final(self)@ == Some(old(self)@->Some_0 + seq!['\n'] + text@),
    {
        let next = match self.text.take() {
            Some(previous) => {
                let mut joined = previous;
                joined.append("\n");
                proof {
                    reveal_strlit("\n");
                }
                joined.append(text.as_str());
                joined
            },
            None => text,
        };
        self.text = Some(next);
    }
}

} // verus!
