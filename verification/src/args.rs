//! The arguments of a command.

use vstd::prelude::*;
use vstd::string::*;

use crate::text::strings;

verus! {

/// One argument: a text, or a path of the caller's own kind.
#[derive(Debug)]
pub enum Arg<P> {
    Text(String),
    Path(P),
}

/// What an argument stands for.
pub enum ArgView<P> {
    Text(Seq<char>),
    Path(P),
}

impl<P> View for Arg<P> {
    type V = ArgView<P>;

    open spec fn view(&self) -> ArgView<P> {
        match *self {
            Arg::Text(t) => ArgView::Text(t@),
            Arg::Path(p) => ArgView::Path(p),
        }
    }
}

/// The arguments of a command, in order.
#[derive(Debug)]
pub struct ArgList<P> {
    pub args: Vec<Arg<P>>,
}

impl<P> View for ArgList<P> {
    type V = Seq<ArgView<P>>;

    open spec fn view(&self) -> Seq<ArgView<P>> {
        Seq::new(self.args@.len(), |i: int| self.args@[i]@)
    }
}

/// Arguments that are all texts.
pub open spec fn texts<P>(list: Seq<Seq<char>>) -> Seq<ArgView<P>> {
    Seq::new(list.len(), |i: int| ArgView::Text(list[i]))
}

/// An argument that is a path.
pub open spec fn path<P>(p: P) -> Seq<ArgView<P>> {
    seq![ArgView::Path(p)]
}

impl<P> ArgList<P> {
    /// No arguments.
    pub fn new() -> (r: ArgList<P>)
        ensures
            r@ == Seq::<ArgView<P>>::empty(),
    {
        let r: ArgList<P> = ArgList { args: Vec::new() };
        assert(r@ =~= Seq::<ArgView<P>>::empty());
        r
    }

    /// Adds a path.
    pub fn path(&mut self, p: P)
        ensures
            final(self)@ == old(self)@ + path(p),
    {
        self.args.push(Arg::Path(p));
        assert(self@ =~= old(self)@ + path(p));
    }

    /// Adds a text.
    pub fn text(&mut self, t: &str)
        ensures
            final(self)@ == old(self)@ + texts(seq![t@]),
    {
        self.args.push(Arg::Text(t.to_owned()));
        assert(self@ =~= old(self)@ + texts(seq![t@]));
    }

    /// Adds two texts.
    pub fn pair(&mut self, a: &str, b: &str)
        ensures
            final(self)@ == old(self)@ + texts(seq![a@, b@]),
    {
        self.text(a);
        self.text(b);
        assert(self@ =~= old(self)@ + texts(seq![a@, b@]));
    }

    /// Adds every text of a list.
    pub fn all(&mut self, list: &Vec<String>)
        ensures
            final(self)@ == old(self)@ + texts(strings(list@)),
    {
        let ghost start = self@;
        let mut i: usize = 0;
        let ghost whole = strings(list@);
        assert(self@ =~= start + texts(whole.take(0)));
        while i < list.len()
            invariant
                i <= list@.len(),
                whole == strings(list@),
                self@ == start + texts(whole.take(i as int)),
            decreases list@.len() - i,
        {
            self.text(list[i].as_str());
            assert(self@ =~= start + texts(whole.take(i + 1)));
            i += 1;
        }
        assert(whole.take(i as int) =~= whole);
    }
}

} // verus!
