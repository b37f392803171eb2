//! What the tool does to the kernel maps through `bpftool`, in the order in
//! which it does it.
use vstd::prelude::*;

use crate::ctl::bpftool::{RunView, ToolOutput};
use crate::text::{texts, told};

verus! {

/// The program that changes maps. Nothing is assumed of what it does.
pub trait Editor {
    /// Runs `bpftool` with arguments; an error where it could not be run.
    fn edit(&self, args: Vec<String>) -> Result<ToolOutput, String>;
}

/// A run of the program.
#[verifier::ext_equal]
pub struct Edit {
    pub args: Seq<Seq<char>>,
    pub reply: Result<RunView, Seq<char>>,
}

/// The runs of the program. All of them go through here, and are kept.
pub struct Edits<'a, E: Editor> {
    editor: &'a E,
    runs: Ghost<Seq<Edit>>,
}

impl<'a, E: Editor> Edits<'a, E> {
    /// All runs so far.
    pub closed spec fn runs(self) -> Seq<Edit> {
        self.runs@
    }

    /// What runs it.
    pub closed spec fn editor(self) -> E {
        *self.editor
    }

    pub fn new(editor: &'a E) -> (r: Self)
        ensures
            r.runs() == Seq::<Edit>::empty(),
            r.editor() == *editor,
    {
        Edits { editor, runs: Ghost(Seq::empty()) }
    }

    /// Runs the program once.
    pub fn run(&mut self, args: Vec<String>) -> (r: Result<ToolOutput, String>)
        ensures
            call_ensures(E::edit, (&old(self).editor(), args), r),
            final(self).editor() == old(self).editor(),
            final(self).runs() == old(self).runs().push(
                Edit { args: texts(args@), reply: told(r) },
            ),
    {
        let ghost words = texts(args@);
        let r = self.editor.edit(args);
        self.runs = Ghost(self.runs@.push(Edit { args: words, reply: told(r) }));
        r
    }
}

} // verus!
