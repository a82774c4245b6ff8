//! Putting a separator between the items of a sequence, every `n` items.
use vstd::prelude::*;

verus! {

/// `items` with `sep` after every `n` items, where `c` items have already
/// gone by since the last separator; with `n == 0`, `items` unchanged.
///
/// A separator follows the `n`-th item of a group even when it is the last
/// item.
pub open spec fn interspersed_from<T>(items: Seq<T>, sep: T, n: nat, c: nat) -> Seq<T>
    decreases items.len(),
{
    if items.len() == 0 {
        Seq::empty()
    } else if n > 0 && c + 1 == n {
        seq![items[0], sep] + interspersed_from(items.drop_first(), sep, n, 0)
    } else {
        seq![items[0]] + interspersed_from(items.drop_first(), sep, n, c + 1)
    }
}

/// `items` with `sep` after every `n` items; with `n == 0`, `items`
/// unchanged.
pub open spec fn interspersed<T>(items: Seq<T>, sep: T, n: nat) -> Seq<T> {
    interspersed_from(items, sep, n, 0)
}

/// With `n == 0` no separator is put in: the items come back unchanged.
pub proof fn lemma_interspersed_zero<T>(items: Seq<T>, sep: T, c: nat)
    ensures
        interspersed_from(items, sep, 0, c) == items,
    decreases items.len(),
{
    if items.len() > 0 {
        lemma_interspersed_zero(items.drop_first(), sep, c + 1);
        assert(seq![items[0]] + items.drop_first() =~= items);
    }
}

/// The state of the separating sequence, as the contracts see it.
#[verifier::ext_equal]
pub struct IntersperseView<T> {
    /// Whether the first element has been asked for.
    pub started: bool,
    /// Whether `None` has been handed out; from then on only `None` follows.
    pub done: bool,
    /// The separator goes after every `n` items.
    pub n: usize,
    /// How many items were handed out since the last separator.
    pub count: usize,
    /// The separator.
    pub separator: T,
    /// All the items.
    pub items: Seq<T>,
    /// How many items were handed out.
    pub pos: usize,
}

impl<T> IntersperseView<T> {
    /// The next element and the state after it: the separator once `n`
    /// items have gone by since the last one, else the next item, else
    /// `None`, after which only `None` follows.
    pub open spec fn next(self) -> (IntersperseView<T>, Option<T>) {
        if self.done {
            (self, None)
        } else if self.started && self.count == self.n {
            (IntersperseView { count: 0, ..self }, Some(self.separator))
        } else if self.pos < self.items.len() {
            (
                IntersperseView {
                    started: true,
                    count: (self.count + 1) as usize,
                    pos: (self.pos + 1) as usize,
                    ..self
                },
                Some(self.items[self.pos as int]),
            )
        } else {
            (IntersperseView { started: true, done: true, ..self }, None)
        }
    }

    /// What is still to come before `None`.
    pub open spec fn rest(self) -> Seq<T> {
        if self.done {
            Seq::empty()
        } else if self.started && self.count == self.n && self.n > 0 {
            seq![self.separator] + interspersed_from(
                self.items.skip(self.pos as int),
                self.separator,
                self.n as nat,
                0,
            )
        } else {
            interspersed_from(
                self.items.skip(self.pos as int),
                self.separator,
                self.n as nat,
                self.count as nat,
            )
        }
    }

    /// The states that handing out elements from a fresh sequence reaches.
    pub open spec fn wf(self) -> bool {
        &&& self.pos <= self.items.len()
        &&& self.items.len() <= usize::MAX
        &&& !self.started ==> self.count == 0 && self.pos == 0 && !self.done
        &&& self.started && !self.done ==> self.count >= 1 || self.n > 0
        &&& self.n > 0 ==> self.count <= self.n
        &&& self.n == 0 ==> self.count == self.pos
    }
}

/// Once the sequence has handed out `None`, it hands out only `None`.
pub proof fn lemma_none_follows_none<T>(v: IntersperseView<T>)
    requires
        v.next().1 is None,
    ensures
        v.next().0.next() == (v.next().0, None::<T>),
{
}

/// The items of a sequence with a separator after every `n` of them.
pub struct IntersperseEvery<T> {
    started: bool,
    done: bool,
    n: usize,
    count: usize,
    separator: T,
    items: Vec<T>,
    pos: usize,
}

impl<T> View for IntersperseEvery<T> {
    type V = IntersperseView<T>;

    closed spec fn view(&self) -> IntersperseView<T> {
        IntersperseView {
            started: self.started,
            done: self.done,
            n: self.n,
            count: self.count,
            separator: self.separator,
            items: self.items@,
            pos: self.pos,
        }
    }
}

impl<T: Copy> IntersperseEvery<T> {
    /// Starts handing out `items`, with `separator` after every `n` of them.
    pub fn new(items: Vec<T>, separator: T, n: usize) -> (res: Self)
        ensures
            res@ == (IntersperseView {
                started: false,
                done: false,
                n,
                count: 0,
                separator,
                items: items@,
                pos: 0,
            }),
            res@.wf(),
    {
        assert(items@.len() == items.len());
        IntersperseEvery { started: false, done: false, count: 0, n, separator, items, pos: 0 }
    }

    /// The next element: an item, the separator after every `n` items, or
    /// `None` once the items are used up, and `None` ever after.
    pub fn next(&mut self) -> (res: Option<T>)
        requires
            old(self)@.wf(),
        ensures
            (final(self)@, res) == old(self)@.next(),
            final(self)@.wf(),
    {
        if self.done {
            None
        } else if self.started && self.count == self.n {
            self.count = 0;
            Some(self.separator)
        } else if self.pos < self.items.len() {
            let item = self.items[self.pos];
            self.started = true;
            self.count = self.count + 1;
            self.pos = self.pos + 1;
            Some(item)
        } else {
            self.started = true;
            self.done = true;
            None
        }
    }

    /// All the elements before the first `None`.
    pub fn collect_vec(self) -> (res: Vec<T>)
        requires
            self@.wf(),
        ensures
            res@ == self@.rest(),
    {
        let mut it = self;
        let ghost total = it@.rest();
        let mut out: Vec<T> = Vec::new();
        assert(out@ + it@.rest() =~= total);
        loop
            invariant_except_break
                it@.wf(),
                out@ + it@.rest() == total,
            ensures
                out@ == total,
            decreases (if it@.done {
                0int
            } else {
                2 * (it@.items.len() - it@.pos) + (if it@.started && it@.count == it@.n {
                    1int
                } else {
                    0int
                }) + (if it@.started {
                    1int
                } else {
                    3int
                })
            }),
        {
            let ghost before = it@;
            match it.next() {
                Some(x) => {
                    proof {
                        let k = before.pos as int;
                        if !(before.started && before.count == before.n) {
                            assert(before.items.skip(k).drop_first() =~= before.items.skip(k + 1));
                        }
                        assert(out@.push(x) + it@.rest() =~= out@ + before.rest());
                    }
                    out.push(x);
                },
                None => {
                    proof {
                        if !before.done {
                            assert(before.items.skip(before.pos as int) =~= Seq::<T>::empty());
                        }
                        assert(out@ + Seq::<T>::empty() =~= out@);
                    }
                    break ;
                },
            }
        }
        out
    }
}

/// Separates the items of a sequence every `n` items.
pub trait IntersperseEveryExt<T>: Sized {
    /// The items, with `delim` after every `n` of them.
    fn intersperse_every(self, delim: T, n: usize) -> IntersperseEvery<T>;
}

impl<T: Copy> IntersperseEveryExt<T> for Vec<T> {
    fn intersperse_every(self, delim: T, n: usize) -> (res: IntersperseEvery<T>)
        ensures
            res@ == (IntersperseView {
                started: false,
                done: false,
                n,
                count: 0,
                separator: delim,
                items: self@,
                pos: 0,
            }),
            res@.wf(),
    {
        IntersperseEvery::new(self, delim, n)
    }
}

} // verus!
