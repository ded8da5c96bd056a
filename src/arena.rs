//! A fixed-capacity byte pool with bump allocation, and the growable vector and box that
//! account for their space in it. Nothing is freed one by one: the pool is discarded or
//! reset as a whole.
use vstd::layout::size_of;
use vstd::prelude::*;
use vstd::string::StringSliceAdditionalSpecFns;

verus! {

#[derive(Clone, Copy, Debug, PartialEq, Eq, Structural)]
pub enum ArenaError {
    /// The pool has no room for the request.
    OutOfMemory,
}

/// A byte range of the pool.
#[derive(Clone, Copy, Debug, PartialEq, Eq, Structural)]
pub struct Span {
    pub start: usize,
    pub len: usize,
}

pub struct Arena {
    memory: Vec<u8>,
    /// Start of the most recent allocation.
    top: usize,
    /// Bytes handed out so far.
    n: usize,
}

impl Arena {
    pub closed spec fn capacity(&self) -> nat {
        self.memory.len() as nat
    }

    pub closed spec fn used(&self) -> nat {
        self.n as nat
    }

    /// Start of the most recently allocated range.
    pub closed spec fn last(&self) -> nat {
        self.top as nat
    }

    pub closed spec fn contents(&self) -> Seq<u8> {
        self.memory@
    }

    pub closed spec fn wf(&self) -> bool {
        self.top <= self.n <= self.memory.len()
    }

    /// A zeroed pool of `size` bytes.
    pub fn new(size: usize) -> (a: Arena)
        ensures
            a.wf(),
            a.capacity() == size,
            a.used() == 0,
            a.last() == 0,
            a.contents() == Seq::new(size as nat, |i: int| 0u8),
    {
        let a = Arena { memory: vec![0u8; size], top: 0, n: 0 };
        assert(a.memory@ =~= Seq::new(size as nat, |i: int| 0u8));
        a
    }

    fn advance_by(&mut self, k: usize)
        requires
            old(self).wf(),
            old(self).n + k <= old(self).memory.len(),
        ensures
            final(self).wf(),
            final(self).n == old(self).n + k,
            final(self).top == old(self).top,
            final(self).memory == old(self).memory,
    {
        self.n = self.n + k;
    }

    /// Hands out the next `k` bytes; fails where fewer are left.
    pub fn alloc_bytes(&mut self, k: usize) -> (r: Result<usize, ArenaError>)
        requires
            old(self).wf(),
        ensures
            final(self).wf(),
            final(self).capacity() == old(self).capacity(),
            final(self).contents() == old(self).contents(),
            old(self).used() + k <= old(self).capacity() ==> r == Ok::<usize, ArenaError>(
                old(self).used() as usize,
            ) && final(self).used() == old(self).used() + k && final(self).last()
                == old(self).used(),
            old(self).used() + k > old(self).capacity() ==> r == Err::<usize, ArenaError>(
                ArenaError::OutOfMemory,
            ) && final(self).used() == old(self).used() && final(self).last() == old(self).last(),
    {
        if k > self.memory.len() - self.n {
            return Err(ArenaError::OutOfMemory);
        }
        let start = self.n;
        self.advance_by(k);
        self.top = start;
        Ok(start)
    }

    /// Copies the bytes of `s` into the pool.
    pub fn alloc_str(&mut self, s: &str) -> (r: Result<Span, ArenaError>)
        requires
            old(self).wf(),
        ensures
            final(self).wf(),
            final(self).capacity() == old(self).capacity(),
            old(self).used() + s.spec_bytes().len() <= old(self).capacity() ==> (r matches Ok(span)
                && span.start == old(self).used() && span.len == s.spec_bytes().len()
                && final(self).used() == old(self).used() + span.len
                && final(self).contents().subrange(span.start as int, span.start + span.len)
                == s.spec_bytes() && final(self).contents().subrange(0, old(self).used() as int)
                == old(self).contents().subrange(0, old(self).used() as int)),
            old(self).used() + s.spec_bytes().len() > old(self).capacity() ==> r == Err::<
                Span,
                ArenaError,
            >(ArenaError::OutOfMemory) && final(self).used() == old(self).used(),
    {
        let bytes = s.as_bytes();
        let len = bytes.len();
        let start = match self.alloc_bytes(len) {
            Ok(start) => start,
            Err(e) => return Err(e),
        };
        let mut k: usize = 0;
        while k < len
            invariant
                self.wf(),
                start + len == self.n,
                self.memory.len() == old(self).memory.len(),
                old(self).n == start,
                k <= len,
                bytes@ == s.spec_bytes(),
                len == bytes@.len(),
                forall|i: int| 0 <= i < k ==> #[trigger] self.memory@[start + i] == bytes@[i],
                forall|i: int| 0 <= i < start ==> #[trigger] self.memory@[i] == old(self).memory@[i],
            decreases len - k,
        {
            self.memory[start + k] = bytes[k];
            k = k + 1;
        }
        assert forall|i: int| 0 <= i < len implies #[trigger] self.memory@.subrange(
            start as int,
            start + len,
        )[i] == s.spec_bytes()[i] by {
            assert(self.memory@[start + i] == bytes@[i]);
        }
        assert(self.memory@.subrange(start as int, start + len) =~= s.spec_bytes());
        assert(self.memory@.subrange(0, start as int) =~= old(self).memory@.subrange(
            0,
            start as int,
        ));
        Ok(Span { start, len })
    }

    /// Grows the range of `old_size` bytes at `start` to `new_size` bytes. Where that range
    /// is still the most recent allocation it grows in place; otherwise a fresh range is
    /// handed out, the old bytes are copied to it, and the old range is left unused.
    pub fn realloc(&mut self, start: usize, old_size: usize, new_size: usize) -> (r: Result<
        usize,
        ArenaError,
    >)
        requires
            old(self).wf(),
            old_size <= new_size,
            start + old_size <= old(self).used(),
        ensures
            final(self).wf(),
            final(self).capacity() == old(self).capacity(),
            ({
                let in_place = start == old(self).last() && start + old_size == old(self).used();
                let fresh = old(self).used();
                if in_place {
                    if start + new_size <= old(self).capacity() {
                        r == Ok::<usize, ArenaError>(start) && final(self).used() == start
                            + new_size && final(self).last() == start && final(self).contents()
                            == old(self).contents()
                    } else {
                        r == Err::<usize, ArenaError>(ArenaError::OutOfMemory) && final(self).used() == old(self).used()
                    }
                } else {
                    if fresh + new_size <= old(self).capacity() {
                        r == Ok::<usize, ArenaError>(fresh as usize) && final(self).used() == fresh
                            + new_size && final(self).last() == fresh && final(self).contents().subrange(
                            fresh as int,
                            fresh + old_size,
                        ) == old(self).contents().subrange(start as int, start + old_size)
                            && final(self).contents().subrange(0, fresh as int) == old(self).contents().subrange(0, fresh as int)
                    } else {
                        r == Err::<usize, ArenaError>(ArenaError::OutOfMemory) && final(self).used() == old(self).used()
                    }
                }
            }),
    {
        if start == self.top && start + old_size == self.n {
            if new_size > self.memory.len() - start {
                return Err(ArenaError::OutOfMemory);
            }
            self.advance_by(new_size - old_size);
            return Ok(start);
        }
        let fresh = match self.alloc_bytes(new_size) {
            Ok(p) => p,
            Err(e) => return Err(e),
        };
        let mut k: usize = 0;
        while k < old_size
            invariant
                self.wf(),
                self.memory.len() == old(self).memory.len(),
                fresh == old(self).n,
                self.top == fresh,
                start + old_size <= fresh,
                fresh + new_size == self.n,
                k <= old_size <= new_size,
                forall|i: int| 0 <= i < k ==> #[trigger] self.memory@[fresh + i] == old(self).memory@[start + i],
                forall|i: int| 0 <= i < fresh ==> #[trigger] self.memory@[i] == old(self).memory@[i],
            decreases old_size - k,
        {
            let b = self.memory[start + k];
            self.memory[fresh + k] = b;
            k = k + 1;
        }
        assert forall|i: int| 0 <= i < old_size implies #[trigger] self.memory@.subrange(
            fresh as int,
            fresh + old_size,
        )[i] == old(self).memory@.subrange(start as int, start + old_size)[i] by {
            assert(self.memory@[fresh + i] == old(self).memory@[start + i]);
        }
        assert(self.memory@.subrange(fresh as int, fresh + old_size) =~= old(self).memory@.subrange(start as int, start + old_size));
        assert(self.memory@.subrange(0, fresh as int) =~= old(self).memory@.subrange(
            0,
            fresh as int,
        ));
        Ok(fresh)
    }

    /// Zeroes the pool and makes all of it available again.
    pub fn reset(self) -> (a: Arena)
        requires
            self.wf(),
        ensures
            a.wf(),
            a.capacity() == self.capacity(),
            a.used() == 0,
            a.contents() == Seq::new(self.capacity(), |i: int| 0u8),
    {
        let mut me = self;
        let mut k: usize = 0;
        while k < me.memory.len()
            invariant
                k <= me.memory.len() == self.memory.len(),
                forall|i: int| 0 <= i < k ==> #[trigger] me.memory@[i] == 0u8,
            decreases me.memory.len() - k,
        {
            me.memory[k] = 0;
            k = k + 1;
        }
        me.top = 0;
        me.n = 0;
        assert(me.memory@ =~= Seq::new(self.capacity(), |i: int| 0u8));
        me
    }

    /// The whole pool, handed out or not.
    pub fn pool(&self) -> (r: &[u8])
        ensures
            r@ == self.contents(),
    {
        self.memory.as_slice()
    }

    /// A copy of the bytes of `span`.
    pub fn bytes(&self, span: Span) -> (r: Vec<u8>)
        requires
            span.start + span.len <= self.capacity(),
        ensures
            r@ == self.contents().subrange(span.start as int, span.start + span.len),
    {
        let mut out: Vec<u8> = Vec::new();
        let mut k: usize = 0;
        while k < span.len
            invariant
                k <= span.len,
                span.start + span.len <= self.memory.len(),
                out@ == self.memory@.subrange(span.start as int, span.start + k),
            decreases span.len - k,
        {
            out.push(self.memory[span.start + k]);
            assert(out@ =~= self.memory@.subrange(span.start as int, span.start + k + 1));
            k = k + 1;
        }
        out
    }
}


impl Arena {
    /// Places `item` in the pool's accounting: reserves room for one value of its type.
    pub fn alloc_typed<T>(&mut self, item: T) -> (r: Result<ArenaBox<T>, ArenaError>)
        requires
            old(self).wf(),
        ensures
            final(self).wf(),
            final(self).capacity() == old(self).capacity(),
            old(self).used() + size_of::<T>() <= old(self).capacity() ==> (r matches Ok(b) && b@
                == item && final(self).used() == old(self).used() + size_of::<T>()),
            old(self).used() + size_of::<T>() > old(self).capacity() ==> r is Err && final(self).used() == old(self).used(),
    {
        ArenaBox::new(self, item)
    }
}

/// Whether growing the range at `start` from `old_size` to `new_size` bytes fits the pool:
/// in place where the range is the most recent allocation, else as a fresh range.
pub open spec fn grow_fits(arena: &Arena, start: nat, old_size: nat, new_size: nat) -> bool {
    if start == arena.last() && start + old_size == arena.used() {
        start + new_size <= arena.capacity()
    } else {
        arena.used() + new_size <= arena.capacity()
    }
}

/// A growable vector whose backing range is accounted for in an arena. Its capacity
/// doubles when full: in place where its range is the arena's most recent allocation,
/// otherwise by moving to a fresh range and abandoning the old one.
#[verifier::reject_recursive_types(T)]
pub struct ArenaVec<T> {
    items: Vec<T>,
    start: usize,
    cap: usize,
}

impl<T> View for ArenaVec<T> {
    type V = Seq<T>;

    closed spec fn view(&self) -> Seq<T> {
        self.items@
    }
}

impl<T> ArenaVec<T> {
    pub closed spec fn capacity(&self) -> nat {
        self.cap as nat
    }

    /// Start of the backing range in the arena.
    pub closed spec fn start(&self) -> nat {
        self.start as nat
    }

    pub closed spec fn wf(&self) -> bool {
        self.items.len() <= self.cap && self.cap >= 1
    }

    /// The backing range lies within what `arena` has handed out.
    pub open spec fn within(&self, arena: &Arena) -> bool {
        self.start() + self.capacity() * size_of::<T>() <= arena.used()
    }

    /// Whether doubling the capacity fits the arena.
    pub open spec fn can_grow(&self, arena: &Arena) -> bool {
        2 * self.capacity() <= usize::MAX && 2 * self.capacity() * size_of::<T>() <= usize::MAX
            && grow_fits(
            arena,
            self.start(),
            self.capacity() * size_of::<T>(),
            2 * self.capacity() * size_of::<T>(),
        )
    }

    /// An empty vector with room for one item.
    pub fn new(arena: &mut Arena) -> (r: Result<ArenaVec<T>, ArenaError>)
        requires
            old(arena).wf(),
        ensures
            final(arena).wf(),
            final(arena).capacity() == old(arena).capacity(),
            old(arena).used() + size_of::<T>() <= old(arena).capacity() ==> (r matches Ok(v) && v@
                == Seq::<T>::empty() && v.wf() && v.capacity() == 1 && v.within(final(arena))),
            old(arena).used() + size_of::<T>() > old(arena).capacity() ==> r is Err,
    {
        let size = core::mem::size_of::<T>();
        let start = match arena.alloc_bytes(size) {
            Ok(p) => p,
            Err(e) => return Err(e),
        };
        Ok(ArenaVec { items: Vec::new(), start, cap: 1 })
    }

    /// Appends `item`, doubling the capacity first where the vector is full.
    pub fn push(&mut self, arena: &mut Arena, item: T) -> (r: Result<(), ArenaError>)
        requires
            old(self).wf(),
            old(arena).wf(),
            old(self).within(old(arena)),
        ensures
            final(arena).wf(),
            final(arena).capacity() == old(arena).capacity(),
            final(self).wf(),
            final(self).within(final(arena)),
            r is Ok <==> (old(self)@.len() < old(self).capacity() || old(self).can_grow(old(arena))),
            r is Ok ==> final(self)@ == old(self)@.push(item),
            r is Err ==> final(self)@ == old(self)@ && final(arena).used() == old(arena).used(),
            old(self)@.len() < old(self).capacity() ==> final(self).capacity()
                == old(self).capacity() && *final(arena) == *old(arena),
            old(self)@.len() == old(self).capacity() && r is Ok ==> final(self).capacity() == 2
                * old(self).capacity(),
    {
        let size = core::mem::size_of::<T>();
        if self.items.len() >= self.cap {
            if self.cap > usize::MAX / 2 {
                return Err(ArenaError::OutOfMemory);
            }
            if size != 0 && self.cap > usize::MAX / 2 / size {
                proof {
                    assert(2 * self.cap * size > usize::MAX) by (nonlinear_arith)
                        requires
                            size >= 1,
                            self.cap > usize::MAX / 2 / size,
                    ;
                }
                return Err(ArenaError::OutOfMemory);
            }
            proof {
                assert(2 * self.cap * size <= usize::MAX) by (nonlinear_arith)
                    requires
                        size == 0 || self.cap <= usize::MAX / 2 / size,
                ;
                assert(self.cap * size <= 2 * self.cap * size) by (nonlinear_arith);
            }
            let old_bytes = self.cap * size;
            let doubled = 2 * self.cap;
            let new_bytes = doubled * size;
            let start = match arena.realloc(self.start, old_bytes, new_bytes) {
                Ok(p) => p,
                Err(e) => return Err(e),
            };
            assert(doubled * size == 2 * self.cap * size) by (nonlinear_arith)
                requires
                    doubled == 2 * self.cap,
            ;
            self.start = start;
            self.cap = doubled;
        }
        self.items.push(item);
        Ok(())
    }

    /// Removes and returns the last item.
    pub fn pop(&mut self) -> (r: Option<T>)
        requires
            old(self).wf(),
        ensures
            final(self).wf(),
            final(self).capacity() == old(self).capacity(),
            final(self).start() == old(self).start(),
            old(self)@.len() == 0 ==> r is None && final(self)@ == old(self)@,
            old(self)@.len() > 0 ==> r == Some(old(self)@.last()) && final(self)@ == old(self)@.drop_last(),
    {
        self.items.pop()
    }

    pub fn len(&self) -> (r: usize)
        ensures
            r == self@.len(),
    {
        self.items.len()
    }

    /// The items, in order.
    pub fn as_slice(&self) -> (r: &[T])
        ensures
            r@ == self@,
    {
        self.items.as_slice()
    }

    /// Walks the items in order.
    pub fn iter(&self) -> (r: Iter<'_, T>)
        ensures
            r.wf(),
            r.rest() == self@,
    {
        let it = Iter { items: &self.items, pos: 0 };
        assert(it.items@.skip(0) =~= self@);
        it
    }
}

/// A walk over the items of an `ArenaVec`.
#[verifier::reject_recursive_types(T)]
pub struct Iter<'a, T> {
    items: &'a Vec<T>,
    pos: usize,
}

impl<'a, T> Iter<'a, T> {
    /// The items not yet returned.
    pub closed spec fn rest(&self) -> Seq<T> {
        self.items@.skip(self.pos as int)
    }

    pub closed spec fn wf(&self) -> bool {
        self.pos <= self.items.len()
    }

    /// The next item, if any.
    pub fn next(&mut self) -> (r: Option<&'a T>)
        requires
            old(self).wf(),
        ensures
            final(self).wf(),
            old(self).rest().len() == 0 ==> r is None && final(self).rest() == old(self).rest(),
            old(self).rest().len() > 0 ==> r == Some(&old(self).rest()[0]) && final(self).rest()
                == old(self).rest().drop_first(),
    {
        if self.pos >= self.items.len() {
            return None;
        }
        let item = &self.items[self.pos];
        self.pos = self.pos + 1;
        assert(self.items@.skip(self.pos as int) =~= old(self).rest().drop_first());
        Some(item)
    }
}

/// A single value whose room is accounted for in an arena.
#[verifier::reject_recursive_types(T)]
pub struct ArenaBox<T> {
    value: T,
    start: usize,
}

impl<T> View for ArenaBox<T> {
    type V = T;

    closed spec fn view(&self) -> T {
        self.value
    }
}

impl<T> ArenaBox<T> {
    pub fn new(arena: &mut Arena, thing: T) -> (r: Result<ArenaBox<T>, ArenaError>)
        requires
            old(arena).wf(),
        ensures
            final(arena).wf(),
            final(arena).capacity() == old(arena).capacity(),
            old(arena).used() + size_of::<T>() <= old(arena).capacity() ==> (r matches Ok(b) && b@
                == thing && final(arena).used() == old(arena).used() + size_of::<T>()),
            old(arena).used() + size_of::<T>() > old(arena).capacity() ==> r is Err && final(arena).used() == old(arena).used(),
    {
        let start = match arena.alloc_bytes(core::mem::size_of::<T>()) {
            Ok(p) => p,
            Err(e) => return Err(e),
        };
        Ok(ArenaBox { value: thing, start })
    }

    pub fn get(&self) -> (r: &T)
        ensures
            *r == self@,
    {
        &self.value
    }

    /// Puts `v` in the box and returns what it held.
    pub fn replace(&mut self, v: T) -> (r: T)
        ensures
            r == old(self)@,
            final(self)@ == v,
    {
        let mut v = v;
        core::mem::swap(&mut self.value, &mut v);
        v
    }

    pub fn into_inner(self) -> (r: T)
        ensures
            r == self@,
    {
        self.value
    }
}

} // verus!
