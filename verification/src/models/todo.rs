use vstd::prelude::*;

verus! {

/// One todo entry: its text and whether it has been completed.
#[derive(Debug)]
pub struct Todo {
    pub text: String,
    pub done: bool,
}

/// The mathematical value of a [`Todo`]: the text as a sequence of
/// characters together with the completion flag.
#[verifier::ext_equal]
pub struct TodoView {
    pub text: Seq<char>,
    pub done: bool,
}

impl View for Todo {
    type V = TodoView;

    open spec fn view(&self) -> TodoView {
        TodoView { text: self.text@, done: self.done }
    }
}

impl DeepView for Todo {
    type V = TodoView;

    open spec fn deep_view(&self) -> TodoView {
        self.view()
    }
}

impl Clone for Todo {
    fn clone(&self) -> (r: Todo)
        ensures
            r@ == self@,
    {
        Todo { text: self.text.clone(), done: self.done }
    }
}

impl Todo {
    /// Builds a fresh entry: the given text, not yet done.
    pub fn new(text: String) -> (r: Todo)
        ensures
            r@ == (TodoView { text: text@, done: false }),
    {
        Todo { text, done: false }
    }
}

} // verus!
