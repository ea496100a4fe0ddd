//! Sequence production for `Either`.
//!
//! `ItemSource` is the crate's capability interface for producing a finite
//! sequence of items.  `VecIter` is the canonical source, backed by a vector.
//! An `Either` of two sources is itself a source: every operation is
//! forwarded to whichever payload is live, without ever touching the other
//! side.  `IterEither` factors an `Either` of two sources with possibly
//! different item types into a single source whose items carry the side's
//! tag.

use vstd::prelude::*;

verus! {

use crate::Either;

/// A producer of a finite sequence of items, handed out from the front (and,
/// for `BackItemSource`, from the back).
pub trait ItemSource<A>: Sized {
    /// The items still to be produced, in order.
    spec fn remaining(&self) -> Seq<A>;

    /// Produces the next item from the front, or nothing once the source is
    /// exhausted.
    fn next(&mut self) -> (r: Option<A>)
        ensures
            old(self).remaining().len() == 0 ==> r is None && final(self).remaining()
                == old(self).remaining(),
            old(self).remaining().len() > 0 ==> r == Some(old(self).remaining()[0])
                && final(self).remaining() == old(self).remaining().drop_first(),
    ;

    /// Exact bounds on how many items are left: both ends of the hint equal
    /// the number of remaining items.
    fn size_hint(&self) -> (r: (usize, Option<usize>))
        ensures
            r.0 == self.remaining().len(),
            r.1 == Some(r.0),
    ;

    /// Consumes the source, returning how many items it still held.
    fn count(self) -> (r: usize)
        ensures
            r == self.remaining().len(),
    ;

    /// Consumes the source, returning its last item.
    fn last(self) -> (r: Option<A>)
        ensures
            self.remaining().len() == 0 ==> r is None,
            self.remaining().len() > 0 ==> r == Some(self.remaining().last()),
    ;

    /// Skips `n` items, then produces the next one.
    fn nth(&mut self, n: usize) -> (r: Option<A>)
        ensures
            n < old(self).remaining().len() ==> r == Some(old(self).remaining()[n as int])
                && final(self).remaining() == old(self).remaining().skip(n + 1),
            n >= old(self).remaining().len() ==> r is None && final(self).remaining()
                == Seq::<A>::empty(),
    ;

    /// How many items are left, exactly.
    fn len(&self) -> (r: usize)
        ensures
            r == self.remaining().len(),
    ;
}

/// A source whose items can also be produced from the back.
pub trait BackItemSource<A>: ItemSource<A> {
    /// Produces the next item from the back, or nothing once the source is
    /// exhausted.
    fn next_back(&mut self) -> (r: Option<A>)
        ensures
            old(self).remaining().len() == 0 ==> r is None && final(self).remaining()
                == old(self).remaining(),
            old(self).remaining().len() > 0 ==> r == Some(old(self).remaining().last())
                && final(self).remaining() == old(self).remaining().drop_last(),
    ;
}

/// The canonical `ItemSource`: produces the elements of a vector in order.
pub struct VecIter<T> {
    items: Vec<T>,
}

impl<T> VecIter<T> {
    /// A source that will produce exactly the elements of `items`, in order.
    pub fn new(items: Vec<T>) -> (r: Self)
        ensures
            r.remaining() == items@,
    {
        VecIter { items }
    }
}

impl<T> ItemSource<T> for VecIter<T> {
    closed spec fn remaining(&self) -> Seq<T> {
        self.items@
    }

    fn next(&mut self) -> (r: Option<T>) {
        if self.items.len() == 0 {
            None
        } else {
            let x = self.items.remove(0);
            proof {
                assert(self.items@ =~= old(self).items@.drop_first());
            }
            Some(x)
        }
    }

    fn size_hint(&self) -> (r: (usize, Option<usize>)) {
        let n = self.items.len();
        (n, Some(n))
    }

    fn count(self) -> (r: usize) {
        self.items.len()
    }

    fn len(&self) -> (r: usize) {
        self.items.len()
    }

    fn last(self) -> (r: Option<T>) {
        let mut items = self.items;
        items.pop()
    }

    fn nth(&mut self, n: usize) -> (r: Option<T>) {
        if n >= self.items.len() {
            self.items.clear();
            None
        } else {
            let mut k: usize = 0;
            while k < n
                invariant
                    k <= n < old(self).items@.len(),
                    self.items@ == old(self).items@.skip(k as int),
                decreases n - k,
            {
                self.items.remove(0);
                proof {
                    assert(old(self).items@.skip(k as int).remove(0) =~= old(self).items@.skip(
                        k + 1,
                    ));
                }
                k = k + 1;
            }
            let x = self.items.remove(0);
            proof {
                assert(old(self).items@.skip(n as int).remove(0) =~= old(self).items@.skip(n + 1));
                assert(old(self).items@.skip(n as int)[0] == old(self).items@[n as int]);
            }
            Some(x)
        }
    }
}

impl<T> BackItemSource<T> for VecIter<T> {
    fn next_back(&mut self) -> (r: Option<T>) {
        let r = self.items.pop();
        proof {
            if old(self).items@.len() > 0 {
                assert(self.items@ =~= old(self).items@.drop_last());
            }
        }
        r
    }
}

/// `Either<L, R>` is a source of items if both `L` and `R` are: every
/// operation is forwarded to the live payload.
impl<A, L, R> ItemSource<A> for Either<L, R> where L: ItemSource<A>, R: ItemSource<A> {
    open spec fn remaining(&self) -> Seq<A> {
        match *self {
            Either::Left(l) => l.remaining(),
            Either::Right(r) => r.remaining(),
        }
    }

    fn next(&mut self) -> (r: Option<A>) {
        match *self {
            Either::Left(ref mut inner) => inner.next(),
            Either::Right(ref mut inner) => inner.next(),
        }
    }

    fn size_hint(&self) -> (r: (usize, Option<usize>)) {
        match *self {
            Either::Left(ref inner) => inner.size_hint(),
            Either::Right(ref inner) => inner.size_hint(),
        }
    }

    fn count(self) -> (r: usize) {
        match self {
            Either::Left(inner) => inner.count(),
            Either::Right(inner) => inner.count(),
        }
    }

    fn last(self) -> (r: Option<A>) {
        match self {
            Either::Left(inner) => inner.last(),
            Either::Right(inner) => inner.last(),
        }
    }

    fn nth(&mut self, n: usize) -> (r: Option<A>) {
        match *self {
            Either::Left(ref mut inner) => inner.nth(n),
            Either::Right(ref mut inner) => inner.nth(n),
        }
    }

    fn len(&self) -> (r: usize) {
        match *self {
            Either::Left(ref inner) => inner.len(),
            Either::Right(ref inner) => inner.len(),
        }
    }
}

impl<A, L, R> BackItemSource<A> for Either<L, R> where L: BackItemSource<A>, R: BackItemSource<A> {
    fn next_back(&mut self) -> (r: Option<A>) {
        match *self {
            Either::Left(ref mut inner) => inner.next_back(),
            Either::Right(ref mut inner) => inner.next_back(),
        }
    }
}

/// Forwarding preserves iteration: an `Either` holding a single source
/// produces exactly the items of that source, so any operation defined over
/// `remaining` — collecting, counting, folding — gives the same outcome
/// through the `Either` as on the source directly.
pub proof fn lemma_delegated_iteration<A, L: ItemSource<A>, R: ItemSource<A>>(l: L, r: R)
    ensures
        Either::<L, R>::Left(l).remaining() == l.remaining(),
        Either::<L, R>::Right(r).remaining() == r.remaining(),
{
}

/// The sequence `s`, with every element wrapped as a `Left`.
pub open spec fn tag_left<A, B>(s: Seq<A>) -> Seq<Either<A, B>> {
    s.map_values(|x: A| Either::<A, B>::Left(x))
}

/// The sequence `s`, with every element wrapped as a `Right`.
pub open spec fn tag_right<A, B>(s: Seq<B>) -> Seq<Either<A, B>> {
    s.map_values(|x: B| Either::<A, B>::Right(x))
}

/// Source that maps a left or right source to correspondingly tagged
/// `Either`-wrapped items.
///
/// This struct is created by [`Either::factor_into_iter`] and
/// [`Either::factor_iter`].  The side chosen at construction is kept for the
/// whole lifetime: an exhausted factored source never switches to the other
/// side.
pub struct IterEither<L, R> {
    inner: Either<L, R>,
}

impl<A, B, L, R> ItemSource<Either<A, B>> for IterEither<L, R> where
    L: ItemSource<A>,
    R: ItemSource<B>,
 {
    closed spec fn remaining(&self) -> Seq<Either<A, B>> {
        match self.inner {
            Either::Left(l) => tag_left(l.remaining()),
            Either::Right(r) => tag_right(r.remaining()),
        }
    }

    fn next(&mut self) -> (r: Option<Either<A, B>>) {
        let r = match self.inner {
            Either::Left(ref mut inner) => match inner.next() {
                Some(x) => Some(Either::Left(x)),
                None => None,
            },
            Either::Right(ref mut inner) => match inner.next() {
                Some(x) => Some(Either::Right(x)),
                None => None,
            },
        };
        proof {
            if old(self).remaining().len() > 0 {
                assert(self.remaining() =~= old(self).remaining().drop_first());
            } else {
                assert(self.remaining() =~= old(self).remaining());
            }
        }
        r
    }

    fn size_hint(&self) -> (r: (usize, Option<usize>)) {
        match self.inner {
            Either::Left(ref inner) => inner.size_hint(),
            Either::Right(ref inner) => inner.size_hint(),
        }
    }

    fn count(self) -> (r: usize) {
        match self.inner {
            Either::Left(inner) => inner.count(),
            Either::Right(inner) => inner.count(),
        }
    }

    fn last(self) -> (r: Option<Either<A, B>>) {
        match self.inner {
            Either::Left(inner) => match inner.last() {
                Some(x) => Some(Either::Left(x)),
                None => None,
            },
            Either::Right(inner) => match inner.last() {
                Some(x) => Some(Either::Right(x)),
                None => None,
            },
        }
    }

    fn len(&self) -> (r: usize) {
        match self.inner {
            Either::Left(ref inner) => inner.len(),
            Either::Right(ref inner) => inner.len(),
        }
    }

    fn nth(&mut self, n: usize) -> (r: Option<Either<A, B>>) {
        let r = match self.inner {
            Either::Left(ref mut inner) => match inner.nth(n) {
                Some(x) => Some(Either::Left(x)),
                None => None,
            },
            Either::Right(ref mut inner) => match inner.nth(n) {
                Some(x) => Some(Either::Right(x)),
                None => None,
            },
        };
        proof {
            if n < old(self).remaining().len() {
                assert(self.remaining() =~= old(self).remaining().skip(n + 1));
            } else {
                assert(self.remaining() =~= Seq::<Either<A, B>>::empty());
            }
        }
        r
    }
}

impl<A, B, L, R> BackItemSource<Either<A, B>> for IterEither<L, R> where
    L: BackItemSource<A>,
    R: BackItemSource<B>,
 {
    fn next_back(&mut self) -> (r: Option<Either<A, B>>) {
        let r = match self.inner {
            Either::Left(ref mut inner) => match inner.next_back() {
                Some(x) => Some(Either::Left(x)),
                None => None,
            },
            Either::Right(ref mut inner) => match inner.next_back() {
                Some(x) => Some(Either::Right(x)),
                None => None,
            },
        };
        proof {
            if old(self).remaining().len() > 0 {
                assert(self.remaining() =~= old(self).remaining().drop_last());
            } else {
                assert(self.remaining() =~= old(self).remaining());
            }
        }
        r
    }
}

/// A factored source keeps each item under its own side's tag, in order: a
/// left-tagged sequence holds `Left(s[i])` at every position, and never a
/// `Right`-tagged item; symmetrically for the right side.
pub proof fn lemma_factored_tags<A, B>(s: Seq<A>, t: Seq<B>)
    ensures
        tag_left::<A, B>(s).len() == s.len(),
        forall|i| 0 <= i < s.len() ==> tag_left::<A, B>(s)[i] == Either::<A, B>::Left(s[i]),
        forall|i| 0 <= i < s.len() ==> !(#[trigger] tag_left::<A, B>(s)[i] is Right),
        tag_right::<A, B>(t).len() == t.len(),
        forall|i| 0 <= i < t.len() ==> tag_right::<A, B>(t)[i] == Either::<A, B>::Right(t[i]),
        forall|i| 0 <= i < t.len() ==> !(#[trigger] tag_right::<A, B>(t)[i] is Left),
{
}

/// Copies the elements of a vector into a fresh one.
fn copy_elems<T: Copy>(v: &Vec<T>) -> (r: Vec<T>)
    ensures
        r@ == v@,
{
    let mut out: Vec<T> = Vec::new();
    let mut i: usize = 0;
    while i < v.len()
        invariant
            i <= v@.len(),
            out@ == v@.take(i as int),
        decreases v@.len() - i,
    {
        out.push(v[i]);
        proof {
            assert(out@ =~= v@.take(i + 1));
        }
        i = i + 1;
    }
    proof {
        assert(v@.take(v@.len() as int) =~= v@);
    }
    out
}

impl<A, B> Either<Vec<A>, Vec<B>> {
    /// Converts an `Either` of vectors into a source of `Either`s.
    ///
    /// Unlike [`Either::into_iter`], this does not require the two sides to
    /// hold the same element type: each produced item is tagged with the side
    /// it came from.
    pub fn factor_into_iter(self) -> (r: IterEither<VecIter<A>, VecIter<B>>)
        ensures
            self matches Either::Left(v) ==> r.remaining() == tag_left::<A, B>(v@),
            self matches Either::Right(v) ==> r.remaining() == tag_right::<A, B>(v@),
    {
        IterEither {
            inner: match self {
                Either::Left(v) => Either::Left(VecIter::new(v)),
                Either::Right(v) => Either::Right(VecIter::new(v)),
            },
        }
    }
}

impl<A: Copy, B: Copy> Either<Vec<A>, Vec<B>> {
    /// Borrows an `Either` of vectors as a source of `Either`s, producing
    /// copies of the elements.
    ///
    /// Unlike [`Either::iter`], this does not require the two sides to hold
    /// the same element type: each produced item is tagged with the side it
    /// came from.
    pub fn factor_iter(&self) -> (r: IterEither<VecIter<A>, VecIter<B>>)
        ensures
            *self matches Either::Left(v) ==> r.remaining() == tag_left::<A, B>(v@),
            *self matches Either::Right(v) ==> r.remaining() == tag_right::<A, B>(v@),
    {
        IterEither {
            inner: match *self {
                Either::Left(ref v) => Either::Left(VecIter::new(copy_elems(v))),
                Either::Right(ref v) => Either::Right(VecIter::new(copy_elems(v))),
            },
        }
    }

    /// Runs one mutable pass over the live side, replacing each element by
    /// the matching function's result: `f` on a `Left` payload, `g` on a
    /// `Right` payload.  (A source of mutable borrows cannot be handed out,
    /// so mutable factored iteration is offered as this in-place pass.)
    pub fn factor_iter_mut<F, G>(&mut self, f: F, g: G) where F: Fn(A) -> A, G: Fn(B) -> B
        requires
            forall|x: A| call_requires(f, (x,)),
            forall|x: B| call_requires(g, (x,)),
        ensures
            *old(self) matches Either::Left(v) ==> (*final(self) matches Either::Left(w) && w
                @.len() == v@.len() && (forall|i|
                0 <= i < v@.len() ==> call_ensures(f, (v@[i],), #[trigger] w@[i]))),
            *old(self) matches Either::Right(v) ==> (*final(self) matches Either::Right(w) && w
                @.len() == v@.len() && (forall|i|
                0 <= i < v@.len() ==> call_ensures(g, (v@[i],), #[trigger] w@[i]))),
    {
        match *self {
            Either::Left(ref mut v) => {
                let mut i: usize = 0;
                while i < v.len()
                    invariant
                        i <= v@.len(),
                        v@.len() == old(self)->Left_0@.len(),
                        forall|x: A| call_requires(f, (x,)),
                        forall|j|
                            0 <= j < i ==> call_ensures(
                                f,
                                (old(self)->Left_0@[j],),
                                #[trigger] v@[j],
                            ),
                        forall|j| i <= j < v@.len() ==> v@[j] == old(self)->Left_0@[j],
                    decreases v@.len() - i,
                {
                    let x = v[i];
                    v[i] = f(x);
                    i = i + 1;
                }
            },
            Either::Right(ref mut v) => {
                let mut i: usize = 0;
                while i < v.len()
                    invariant
                        i <= v@.len(),
                        v@.len() == old(self)->Right_0@.len(),
                        forall|x: B| call_requires(g, (x,)),
                        forall|j|
                            0 <= j < i ==> call_ensures(
                                g,
                                (old(self)->Right_0@[j],),
                                #[trigger] v@[j],
                            ),
                        forall|j| i <= j < v@.len() ==> v@[j] == old(self)->Right_0@[j],
                    decreases v@.len() - i,
                {
                    let x = v[i];
                    v[i] = g(x);
                    i = i + 1;
                }
            },
        }
    }
}

impl<T> Either<Vec<T>, Vec<T>> {
    /// Converts the inner vector to a source of its elements.
    ///
    /// This requires the `Left` and `Right` sides to hold the same element
    /// type.  See [`Either::factor_into_iter`] to iterate different types.
    pub fn into_iter(self) -> (r: Either<VecIter<T>, VecIter<T>>)
        ensures
            self matches Either::Left(v) ==> (r matches Either::Left(it) && it.remaining() == v@),
            self matches Either::Right(v) ==> (r matches Either::Right(it) && it.remaining()
                == v@),
    {
        match self {
            Either::Left(v) => Either::Left(VecIter::new(v)),
            Either::Right(v) => Either::Right(VecIter::new(v)),
        }
    }

    /// Appends the given elements to whichever side is live.
    pub fn extend(&mut self, items: Vec<T>)
        ensures
            *old(self) matches Either::Left(v) ==> (*final(self) matches Either::Left(w) && w@
                == v@ + items@),
            *old(self) matches Either::Right(v) ==> (*final(self) matches Either::Right(w) && w@
                == v@ + items@),
    {
        let mut items = items;
        match *self {
            Either::Left(ref mut v) => v.append(&mut items),
            Either::Right(ref mut v) => v.append(&mut items),
        }
    }
}

impl<T: Copy> Either<Vec<T>, Vec<T>> {
    /// Borrows the inner vector as a source of copies of its elements.
    ///
    /// This requires the `Left` and `Right` sides to hold the same element
    /// type.  See [`Either::factor_iter`] to iterate different types.
    pub fn iter(&self) -> (r: Either<VecIter<T>, VecIter<T>>)
        ensures
            *self matches Either::Left(v) ==> (r matches Either::Left(it) && it.remaining()
                == v@),
            *self matches Either::Right(v) ==> (r matches Either::Right(it) && it.remaining()
                == v@),
    {
        match *self {
            Either::Left(ref v) => Either::Left(VecIter::new(copy_elems(v))),
            Either::Right(ref v) => Either::Right(VecIter::new(copy_elems(v))),
        }
    }

    /// Runs one mutable pass over the live side, replacing each element by
    /// `f`'s result.  (A source of mutable borrows cannot be handed out, so
    /// mutable iteration is offered as this in-place pass.)
    pub fn iter_mut<F>(&mut self, f: F) where F: Fn(T) -> T
        requires
            forall|x: T| call_requires(f, (x,)),
        ensures
            *old(self) matches Either::Left(v) ==> (*final(self) matches Either::Left(w) && w
                @.len() == v@.len() && (forall|i|
                0 <= i < v@.len() ==> call_ensures(f, (v@[i],), #[trigger] w@[i]))),
            *old(self) matches Either::Right(v) ==> (*final(self) matches Either::Right(w) && w
                @.len() == v@.len() && (forall|i|
                0 <= i < v@.len() ==> call_ensures(f, (v@[i],), #[trigger] w@[i]))),
    {
        match *self {
            Either::Left(ref mut v) => {
                let mut i: usize = 0;
                while i < v.len()
                    invariant
                        i <= v@.len(),
                        v@.len() == old(self)->Left_0@.len(),
                        forall|x: T| call_requires(f, (x,)),
                        forall|j|
                            0 <= j < i ==> call_ensures(
                                f,
                                (old(self)->Left_0@[j],),
                                #[trigger] v@[j],
                            ),
                        forall|j| i <= j < v@.len() ==> v@[j] == old(self)->Left_0@[j],
                    decreases v@.len() - i,
                {
                    let x = v[i];
                    v[i] = f(x);
                    i = i + 1;
                }
            },
            Either::Right(ref mut v) => {
                let mut i: usize = 0;
                while i < v.len()
                    invariant
                        i <= v@.len(),
                        v@.len() == old(self)->Right_0@.len(),
                        forall|x: T| call_requires(f, (x,)),
                        forall|j|
                            0 <= j < i ==> call_ensures(
                                f,
                                (old(self)->Right_0@[j],),
                                #[trigger] v@[j],
                            ),
                        forall|j| i <= j < v@.len() ==> v@[j] == old(self)->Right_0@[j],
                    decreases v@.len() - i,
                {
                    let x = v[i];
                    v[i] = f(x);
                    i = i + 1;
                }
            },
        }
    }
}

/// Collects every remaining item of a source into a vector, in order.
pub fn collect_vec<A, I: ItemSource<A>>(src: I) -> (r: Vec<A>)
    ensures
        r@ == src.remaining(),
{
    let ghost orig = src.remaining();
    let mut it = src;
    let mut out: Vec<A> = Vec::new();
    loop
        invariant
            out@ + it.remaining() == orig,
        ensures
            out@ == orig,
        decreases it.remaining().len(),
    {
        match it.next() {
            Some(x) => {
                out.push(x);
                proof {
                    assert(out@ + it.remaining() =~= orig);
                }
            },
            None => {
                proof {
                    assert(out@ =~= orig);
                }
                break ;
            },
        }
    }
    out
}

/// Folds `f` over every remaining item of a source, left to right, starting
/// from `init`.  The result is reached through a chain of accumulators, one
/// call of `f` per item, in order.
pub fn fold<A, B, I, F>(src: I, init: B, f: F) -> (r: B) where I: ItemSource<A>, F: Fn(B, A) -> B
    requires
        forall|b: B, a: A| call_requires(f, (b, a)),
    ensures
        exists|chain: Seq<B>|
            {
                &&& chain.len() == src.remaining().len() + 1
                &&& chain[0] == init
                &&& r == chain[chain.len() - 1]
                &&& forall|i|
                    0 <= i < src.remaining().len() ==> call_ensures(
                        f,
                        (chain[i], src.remaining()[i]),
                        #[trigger] chain[i + 1],
                    )
            },
{
    let ghost orig = src.remaining();
    let mut it = src;
    let mut acc = init;
    let ghost mut chain = seq![init];
    loop
        invariant
            forall|b: B, a: A| call_requires(f, (b, a)),
            chain.len() >= 1,
            chain.len() + it.remaining().len() == orig.len() + 1,
            it.remaining() == orig.skip(chain.len() - 1),
            chain[0] == init,
            acc == chain[chain.len() - 1],
            forall|i|
                0 <= i < chain.len() - 1 ==> call_ensures(
                    f,
                    (chain[i], orig[i]),
                    #[trigger] chain[i + 1],
                ),
        ensures
            it.remaining().len() == 0,
            chain.len() == orig.len() + 1,
            chain[0] == init,
            acc == chain[chain.len() - 1],
            forall|i|
                0 <= i < chain.len() - 1 ==> call_ensures(
                    f,
                    (chain[i], orig[i]),
                    #[trigger] chain[i + 1],
                ),
        decreases it.remaining().len(),
    {
        proof {
            assert(orig.skip(chain.len() - 1).len() == it.remaining().len());
        }
        match it.next() {
            Some(x) => {
                proof {
                    assert(x == orig[chain.len() - 1]);
                    assert(orig.skip(chain.len() - 1).drop_first() =~= orig.skip(
                        chain.len() as int,
                    ));
                }
                acc = f(acc, x);
                proof {
                    chain = chain.push(acc);
                }
            },
            None => {
                break ;
            },
        }
    }
    acc
}

/// Folds `f` over every remaining item of a source, right to left, starting
/// from `init`.  The result is reached through a chain of accumulators, one
/// call of `f` per item, from the last item backwards.
pub fn rfold<A, B, I, F>(src: I, init: B, f: F) -> (r: B) where
    I: BackItemSource<A>,
    F: Fn(B, A) -> B,

    requires
        forall|b: B, a: A| call_requires(f, (b, a)),
    ensures
        exists|chain: Seq<B>|
            {
                &&& chain.len() == src.remaining().len() + 1
                &&& chain[0] == init
                &&& r == chain[chain.len() - 1]
                &&& forall|i|
                    0 <= i < src.remaining().len() ==> call_ensures(
                        f,
                        (chain[i], src.remaining()[src.remaining().len() - 1 - i]),
                        #[trigger] chain[i + 1],
                    )
            },
{
    let ghost orig = src.remaining();
    let mut it = src;
    let mut acc = init;
    let ghost mut chain = seq![init];
    loop
        invariant
            orig == src.remaining(),
            forall|b: B, a: A| call_requires(f, (b, a)),
            chain.len() >= 1,
            chain.len() + it.remaining().len() == orig.len() + 1,
            it.remaining() == orig.take(orig.len() - (chain.len() - 1)),
            chain[0] == init,
            acc == chain[chain.len() - 1],
            forall|i|
                0 <= i < chain.len() - 1 ==> call_ensures(
                    f,
                    (chain[i], orig[orig.len() - 1 - i]),
                    #[trigger] chain[i + 1],
                ),
        ensures
            chain.len() == orig.len() + 1,
            chain[0] == init,
            acc == chain[chain.len() - 1],
            forall|i|
                0 <= i < chain.len() - 1 ==> call_ensures(
                    f,
                    (chain[i], orig[orig.len() - 1 - i]),
                    #[trigger] chain[i + 1],
                ),
        decreases it.remaining().len(),
    {
        let ghost k = orig.len() - (chain.len() - 1);
        match it.next_back() {
            Some(x) => {
                proof {
                    assert(x == orig.take(k as int)[k - 1]);
                    assert(orig.take(k as int).drop_last() =~= orig.take(k - 1));
                }
                acc = f(acc, x);
                proof {
                    chain = chain.push(acc);
                }
            },
            None => {
                break ;
            },
        }
    }
    acc
}

/// Tests whether `f` accepts every remaining item of a source.  A positive
/// answer vouches for every item; a negative one names a rejected item.
pub fn all<A, I, F>(src: I, f: F) -> (r: bool) where I: ItemSource<A>, F: Fn(A) -> bool
    requires
        forall|a: A| call_requires(f, (a,)),
    ensures
        r ==> forall|i|
            0 <= i < src.remaining().len() ==> call_ensures(f, (src.remaining()[i],), true),
        !r ==> exists|i|
            0 <= i < src.remaining().len() && call_ensures(f, (#[trigger] src.remaining()[i],), false),
{
    let ghost orig = src.remaining();
    let mut it = src;
    let ghost mut k: int = 0;
    loop
        invariant
            orig == src.remaining(),
            forall|a: A| call_requires(f, (a,)),
            0 <= k <= orig.len(),
            it.remaining() == orig.skip(k),
            forall|j| 0 <= j < k ==> call_ensures(f, (orig[j],), true),
        ensures
            forall|i| 0 <= i < orig.len() ==> call_ensures(f, (orig[i],), true),
        decreases it.remaining().len(),
    {
        match it.next() {
            Some(x) => {
                proof {
                    assert(x == orig[k]);
                    assert(orig.skip(k).drop_first() =~= orig.skip(k + 1));
                }
                if !f(x) {
                    proof {
                        assert(call_ensures(f, (orig[k],), false));
                        assert(exists|i|
                            0 <= i < orig.len() && call_ensures(f, (#[trigger] orig[i],), false));
                    }
                    return false;
                }
                proof {
                    k = k + 1;
                }
            },
            None => {
                break ;
            },
        }
    }
    true
}

/// Tests whether `f` accepts some remaining item of a source.  A positive
/// answer names an accepted item; a negative one vouches that every item was
/// rejected.
pub fn any<A, I, F>(src: I, f: F) -> (r: bool) where I: ItemSource<A>, F: Fn(A) -> bool
    requires
        forall|a: A| call_requires(f, (a,)),
    ensures
        r ==> exists|i|
            0 <= i < src.remaining().len() && call_ensures(f, (#[trigger] src.remaining()[i],), true),
        !r ==> forall|i|
            0 <= i < src.remaining().len() ==> call_ensures(f, (src.remaining()[i],), false),
{
    let ghost orig = src.remaining();
    let mut it = src;
    let ghost mut k: int = 0;
    loop
        invariant
            orig == src.remaining(),
            forall|a: A| call_requires(f, (a,)),
            0 <= k <= orig.len(),
            it.remaining() == orig.skip(k),
            forall|j| 0 <= j < k ==> call_ensures(f, (orig[j],), false),
        ensures
            forall|i| 0 <= i < orig.len() ==> call_ensures(f, (orig[i],), false),
        decreases it.remaining().len(),
    {
        match it.next() {
            Some(x) => {
                proof {
                    assert(x == orig[k]);
                    assert(orig.skip(k).drop_first() =~= orig.skip(k + 1));
                }
                if f(x) {
                    proof {
                        assert(call_ensures(f, (orig[k],), true));
                        assert(exists|i|
                            0 <= i < orig.len() && call_ensures(f, (#[trigger] orig[i],), true));
                    }
                    return true;
                }
                proof {
                    k = k + 1;
                }
            },
            None => {
                break ;
            },
        }
    }
    false
}

/// Finds the first remaining item of a source that `f` accepts: every
/// earlier item was rejected, and an empty answer vouches that every item
/// was.
pub fn find<A, I, F>(src: I, f: F) -> (r: Option<A>) where
    I: ItemSource<A>,
    F: Fn(&A) -> bool,

    requires
        forall|a: A| call_requires(f, (&a,)),
    ensures
        r matches Some(x) ==> exists|i|
            {
                &&& 0 <= i < src.remaining().len()
                &&& x == src.remaining()[i]
                &&& call_ensures(f, (&src.remaining()[i],), true)
                &&& forall|j| 0 <= j < i ==> call_ensures(f, (&src.remaining()[j],), false)
            },
        r is None ==> forall|i|
            0 <= i < src.remaining().len() ==> call_ensures(f, (&src.remaining()[i],), false),
{
    let ghost orig = src.remaining();
    let mut it = src;
    let ghost mut k: int = 0;
    loop
        invariant
            orig == src.remaining(),
            forall|a: A| call_requires(f, (&a,)),
            0 <= k <= orig.len(),
            it.remaining() == orig.skip(k),
            forall|j| 0 <= j < k ==> call_ensures(f, (&orig[j],), false),
        ensures
            forall|i| 0 <= i < orig.len() ==> call_ensures(f, (&orig[i],), false),
        decreases it.remaining().len(),
    {
        match it.next() {
            Some(x) => {
                proof {
                    assert(x == orig[k]);
                    assert(orig.skip(k).drop_first() =~= orig.skip(k + 1));
                }
                if f(&x) {
                    proof {
                        assert(call_ensures(f, (&orig[k],), true));
                        assert(exists|i|
                            {
                                &&& 0 <= i < orig.len()
                                &&& x == orig[i]
                                &&& call_ensures(f, (&orig[i],), true)
                                &&& forall|j| 0 <= j < i ==> call_ensures(f, (&orig[j],), false)
                            });
                    }
                    return Some(x);
                }
                proof {
                    k = k + 1;
                }
            },
            None => {
                break ;
            },
        }
    }
    None
}

/// Finds the position of the first remaining item of a source that `f`
/// accepts: every earlier item was rejected, and an empty answer vouches
/// that every item was.
pub fn position<A, I, F>(src: I, f: F) -> (r: Option<usize>) where
    I: ItemSource<A>,
    F: Fn(A) -> bool,

    requires
        forall|a: A| call_requires(f, (a,)),
        src.remaining().len() <= usize::MAX,
    ensures
        r matches Some(k) ==> k < src.remaining().len() && call_ensures(
            f,
            (src.remaining()[k as int],),
            true,
        ) && (forall|j| 0 <= j < k ==> call_ensures(f, (src.remaining()[j],), false)),
        r is None ==> forall|i|
            0 <= i < src.remaining().len() ==> call_ensures(f, (src.remaining()[i],), false),
{
    let ghost orig = src.remaining();
    let mut it = src;
    let mut k: usize = 0;
    loop
        invariant
            orig == src.remaining(),
            orig.len() <= usize::MAX,
            forall|a: A| call_requires(f, (a,)),
            0 <= k <= orig.len(),
            it.remaining() == orig.skip(k as int),
            forall|j| 0 <= j < k ==> call_ensures(f, (orig[j],), false),
        ensures
            forall|i| 0 <= i < orig.len() ==> call_ensures(f, (orig[i],), false),
        decreases it.remaining().len(),
    {
        match it.next() {
            Some(x) => {
                proof {
                    assert(x == orig[k as int]);
                    assert(orig.skip(k as int).drop_first() =~= orig.skip(k + 1));
                }
                if f(x) {
                    return Some(k);
                }
                k = k + 1;
            },
            None => {
                break ;
            },
        }
    }
    None
}

/// The elements of `s` whose flag equals `keep`, in order.  `flags` assigns
/// one flag per element.
pub open spec fn select<A>(s: Seq<A>, flags: Seq<bool>, keep: bool) -> Seq<A>
    decreases s.len(),
{
    if s.len() == 0 {
        Seq::empty()
    } else {
        (if flags[0] == keep {
            seq![s[0]]
        } else {
            Seq::empty()
        }) + select(s.drop_first(), flags.drop_first(), keep)
    }
}

proof fn lemma_select_push<A>(s: Seq<A>, flags: Seq<bool>, x: A, b: bool, keep: bool)
    requires
        s.len() == flags.len(),
    ensures
        select(s.push(x), flags.push(b), keep) == select(s, flags, keep) + (if b == keep {
            seq![x]
        } else {
            Seq::<A>::empty()
        }),
    decreases s.len(),
{
    if s.len() == 0 {
        assert(s.push(x).drop_first() =~= Seq::<A>::empty());
        assert(flags.push(b).drop_first() =~= Seq::<bool>::empty());
        assert(select(Seq::<A>::empty(), Seq::<bool>::empty(), keep) == Seq::<A>::empty());
        assert(select(s.push(x), flags.push(b), keep) =~= (if b == keep {
            seq![x]
        } else {
            Seq::<A>::empty()
        }));
        assert(select(s, flags, keep) + (if b == keep {
            seq![x]
        } else {
            Seq::<A>::empty()
        }) =~= (if b == keep {
            seq![x]
        } else {
            Seq::<A>::empty()
        }));
    } else {
        assert(s.push(x).drop_first() =~= s.drop_first().push(x));
        assert(flags.push(b).drop_first() =~= flags.drop_first().push(b));
        lemma_select_push(s.drop_first(), flags.drop_first(), x, b, keep);
        assert(select(s.push(x), flags.push(b), keep) =~= select(s, flags, keep) + (if b == keep {
            seq![x]
        } else {
            Seq::<A>::empty()
        }));
    }
}

/// Splits the remaining items of a source in two by `f`'s verdict, keeping
/// the order: the accepted items, then separately the rejected ones.
pub fn partition<A, I, F>(src: I, f: F) -> (r: (Vec<A>, Vec<A>)) where
    I: ItemSource<A>,
    F: Fn(&A) -> bool,

    requires
        forall|a: A| call_requires(f, (&a,)),
    ensures
        exists|flags: Seq<bool>|
            {
                &&& flags.len() == src.remaining().len()
                &&& forall|i|
                    0 <= i < flags.len() ==> call_ensures(
                        f,
                        (&src.remaining()[i],),
                        #[trigger] flags[i],
                    )
                &&& r.0@ == select(src.remaining(), flags, true)
                &&& r.1@ == select(src.remaining(), flags, false)
            },
{
    let ghost orig = src.remaining();
    let mut it = src;
    let mut accepted: Vec<A> = Vec::new();
    let mut rejected: Vec<A> = Vec::new();
    let ghost mut flags: Seq<bool> = Seq::empty();
    loop
        invariant
            orig == src.remaining(),
            forall|a: A| call_requires(f, (&a,)),
            flags.len() <= orig.len(),
            it.remaining() == orig.skip(flags.len() as int),
            forall|i| 0 <= i < flags.len() ==> call_ensures(f, (&orig[i],), #[trigger] flags[i]),
            accepted@ == select(orig.take(flags.len() as int), flags, true),
            rejected@ == select(orig.take(flags.len() as int), flags, false),
        ensures
            flags.len() == orig.len(),
            forall|i| 0 <= i < flags.len() ==> call_ensures(f, (&orig[i],), #[trigger] flags[i]),
            accepted@ == select(orig, flags, true),
            rejected@ == select(orig, flags, false),
        decreases it.remaining().len(),
    {
        let ghost k = flags.len() as int;
        match it.next() {
            Some(x) => {
                proof {
                    assert(x == orig[k]);
                    assert(orig.skip(k).drop_first() =~= orig.skip(k + 1));
                }
                let b = f(&x);
                proof {
                    lemma_select_push(orig.take(k), flags, x, b, true);
                    lemma_select_push(orig.take(k), flags, x, b, false);
                    assert(orig.take(k).push(x) =~= orig.take(k + 1));
                    flags = flags.push(b);
                }
                if b {
                    accepted.push(x);
                } else {
                    rejected.push(x);
                }
            },
            None => {
                proof {
                    assert(orig.take(flags.len() as int) =~= orig);
                }
                break ;
            },
        }
    }
    (accepted, rejected)
}

/// Passes every remaining item of a source to `f`, in order.
pub fn for_each<A, I, F>(src: I, f: F) where I: ItemSource<A>, F: Fn(A)
    requires
        forall|a: A| call_requires(f, (a,)),
    ensures
        forall|i| 0 <= i < src.remaining().len() ==> call_ensures(f, (src.remaining()[i],), ()),
{
    let ghost orig = src.remaining();
    let mut it = src;
    let ghost mut k: int = 0;
    loop
        invariant
            orig == src.remaining(),
            forall|a: A| call_requires(f, (a,)),
            0 <= k <= orig.len(),
            it.remaining() == orig.skip(k),
            forall|j| 0 <= j < k ==> call_ensures(f, (orig[j],), ()),
        ensures
            forall|i| 0 <= i < orig.len() ==> call_ensures(f, (orig[i],), ()),
        decreases it.remaining().len(),
    {
        match it.next() {
            Some(x) => {
                proof {
                    assert(x == orig[k]);
                    assert(orig.skip(k).drop_first() =~= orig.skip(k + 1));
                }
                f(x);
                proof {
                    k = k + 1;
                }
            },
            None => {
                break ;
            },
        }
    }
}

/// Maps `f` over the remaining items of a source and hands back the first
/// mapped value: every earlier item mapped to nothing, and an empty answer
/// vouches that every item did.
pub fn find_map<A, B, I, F>(src: I, f: F) -> (r: Option<B>) where
    I: ItemSource<A>,
    F: Fn(A) -> Option<B>,

    requires
        forall|a: A| call_requires(f, (a,)),
    ensures
        r matches Some(y) ==> exists|i|
            {
                &&& 0 <= i < src.remaining().len()
                &&& call_ensures(f, (#[trigger] src.remaining()[i],), Some(y))
                &&& forall|j|
                    0 <= j < i ==> call_ensures(f, (src.remaining()[j],), None::<B>)
            },
        r is None ==> forall|i|
            0 <= i < src.remaining().len() ==> call_ensures(f, (src.remaining()[i],), None::<B>),
{
    let ghost orig = src.remaining();
    let mut it = src;
    let ghost mut k: int = 0;
    loop
        invariant
            orig == src.remaining(),
            forall|a: A| call_requires(f, (a,)),
            0 <= k <= orig.len(),
            it.remaining() == orig.skip(k),
            forall|j| 0 <= j < k ==> call_ensures(f, (orig[j],), None::<B>),
        ensures
            forall|i| 0 <= i < orig.len() ==> call_ensures(f, (orig[i],), None::<B>),
        decreases it.remaining().len(),
    {
        match it.next() {
            Some(x) => {
                proof {
                    assert(x == orig[k]);
                    assert(orig.skip(k).drop_first() =~= orig.skip(k + 1));
                }
                match f(x) {
                    Some(y) => {
                        proof {
                            assert(call_ensures(f, (orig[k],), Some(y)));
                            assert(exists|i|
                                {
                                    &&& 0 <= i < orig.len()
                                    &&& call_ensures(f, (#[trigger] orig[i],), Some(y))
                                    &&& forall|j|
                                        0 <= j < i ==> call_ensures(f, (orig[j],), None::<B>)
                                });
                        }
                        return Some(y);
                    },
                    None => {
                        proof {
                            k = k + 1;
                        }
                    },
                }
            },
            None => {
                break ;
            },
        }
    }
    None
}

/// Finds the last remaining item of a source that `f` accepts, searching
/// from the back: every later item was rejected, and an empty answer vouches
/// that every item was.
pub fn rfind<A, I, F>(src: I, f: F) -> (r: Option<A>) where
    I: BackItemSource<A>,
    F: Fn(&A) -> bool,

    requires
        forall|a: A| call_requires(f, (&a,)),
    ensures
        r matches Some(x) ==> exists|i|
            {
                &&& 0 <= i < src.remaining().len()
                &&& x == src.remaining()[i]
                &&& call_ensures(f, (&src.remaining()[i],), true)
                &&& forall|j|
                    i < j < src.remaining().len() ==> call_ensures(
                        f,
                        (&src.remaining()[j],),
                        false,
                    )
            },
        r is None ==> forall|i|
            0 <= i < src.remaining().len() ==> call_ensures(f, (&src.remaining()[i],), false),
{
    let ghost orig = src.remaining();
    let mut it = src;
    let ghost mut k: int = orig.len() as int;
    loop
        invariant
            orig == src.remaining(),
            forall|a: A| call_requires(f, (&a,)),
            0 <= k <= orig.len(),
            it.remaining() == orig.take(k),
            forall|j| k <= j < orig.len() ==> call_ensures(f, (&orig[j],), false),
        ensures
            forall|i| 0 <= i < orig.len() ==> call_ensures(f, (&orig[i],), false),
        decreases it.remaining().len(),
    {
        match it.next_back() {
            Some(x) => {
                proof {
                    assert(x == orig.take(k)[k - 1]);
                    assert(orig.take(k).drop_last() =~= orig.take(k - 1));
                }
                if f(&x) {
                    proof {
                        assert(call_ensures(f, (&orig[k - 1],), true));
                        assert(exists|i|
                            {
                                &&& 0 <= i < orig.len()
                                &&& x == orig[i]
                                &&& call_ensures(f, (&orig[i],), true)
                                &&& forall|j|
                                    i < j < orig.len() ==> call_ensures(f, (&orig[j],), false)
                            });
                    }
                    return Some(x);
                }
                proof {
                    k = k - 1;
                }
            },
            None => {
                break ;
            },
        }
    }
    None
}

} // verus!
