use crate::pow2::{is_pow2, lemma_pow2_divides_word, lemma_pow2_fits, lemma_word, word};
use vstd::arithmetic::div_mod::{
    lemma_add_mod_noop, lemma_fundamental_div_mod, lemma_mod_add_multiples_vanish,
    lemma_mod_bound, lemma_mod_equivalence, lemma_mod_mod, lemma_mod_multiples_vanish,
    lemma_small_mod, lemma_sub_mod_noop,
};
use vstd::arithmetic::power2::{lemma_pow2_adds, lemma_pow2_strictly_increases, pow2};
use vstd::prelude::*;

verus! {

/// One cell of the ring: a value, or room for one, and the sequence number that
/// tells which position the cell serves.
///
/// A cell that is free for position `p` carries `p`; one that holds the value of
/// position `p` carries `p + 1`.
pub struct Slot<T> {
    pub sequence: usize,
    pub data: Option<T>,
}

impl<T> Slot<T> {
    /// A free cell for position `seq`.
    pub fn new(seq: usize) -> (s: Self)
        ensures
            s.sequence == seq,
            s.data is None,
    {
        Slot { sequence: seq, data: None }
    }
}

/// A bounded ring of `CAP` cells addressed by sequence number.
///
/// Positions count up without end and wrap with the machine word. A producer either
/// takes the next position and writes it at once ([`Ring::push`]), or reserves it
/// ([`Ring::reserve`]) and writes later ([`Ring::fill`]). A consumer either takes the
/// oldest value at once ([`Ring::pop`]), or claims its position ([`Ring::begin_pop`]) and
/// reads the cell later ([`Ring::finish_pop`]). The two halves of such an operation may
/// have those of any other operations between them.
///
/// The view lists the positions from the oldest unclaimed one to the newest: `Some` for a
/// written value, `None` for a reservation that is still open.
pub struct Ring<T, const CAP: usize> {
    slots: Vec<Slot<T>>,
    head: usize,
    tail: usize,
    pending: Ghost<Seq<Option<T>>>,
    reading: Ghost<Map<usize, T>>,
}

/// The distance from `head` to `pos`, on the circle of machine words.
pub open spec fn offset(head: usize, pos: usize) -> int {
    (pos - head) % word()
}

/// The position that used the cell of `pos` one round earlier.
pub open spec fn round_before(pos: int, cap: int) -> usize {
    ((pos - cap) % word()) as usize
}

/// What cell `s` looks like when it serves the `k`th position after `head`.
spec fn slot_shows<T>(
    s: Slot<T>,
    head: int,
    k: int,
    cap: int,
    pending: Seq<Option<T>>,
    reading: Map<usize, T>,
) -> bool {
    let q = round_before(head + k, cap);
    if reading.contains_key(q) {
        &&& s.sequence == (head + k - cap + 1) % word()
        &&& s.data == Some(reading[q])
        &&& k >= pending.len() || pending[k] is None
    } else if k < pending.len() && pending[k] is Some {
        s.sequence == (head + k + 1) % word() && s.data == pending[k]
    } else {
        s.sequence == (head + k) % word() && s.data is None
    }
}

proof fn lemma_index(x: int, cap: int)
    requires
        is_pow2(cap),
        cap <= usize::MAX,
    ensures
        cap > 0,
        (x % word()) % cap == x % cap,
{
    lemma_pow2_divides_word(cap);
    lemma_fundamental_div_mod(word(), cap);
    lemma_mod_mod(x, cap, word() / cap);
}

proof fn lemma_cap_bound(cap: int)
    requires
        is_pow2(cap),
        cap <= usize::MAX,
    ensures
        0 < cap,
        cap + cap <= word(),
{
    let e = lemma_pow2_fits(cap);
    lemma_word();
    lemma_pow2_adds(e, 1);
    assert(pow2(1) == 2) by {
        vstd::arithmetic::power2::lemma2_to64();
    }
    assert(pow2(e) * 2 == pow2(e) + pow2(e)) by (nonlinear_arith);
    if e + 1 < usize::BITS {
        lemma_pow2_strictly_increases(e + 1, usize::BITS as nat);
    }
}

/// Two of `CAP` neighbouring positions never share a cell.
proof fn lemma_distinct(head: int, j: int, k: int, cap: int)
    requires
        0 < cap,
        0 <= j < cap,
        0 <= k < cap,
        (head + j) % cap == (head + k) % cap,
    ensures
        j == k,
{
    lemma_mod_equivalence(head + j, head + k, cap);
    assert((j - k) % cap == 0);
    if j > k {
        lemma_small_mod((j - k) as nat, cap as nat);
    } else if j < k {
        lemma_mod_equivalence(head + k, head + j, cap);
        lemma_small_mod((k - j) as nat, cap as nat);
    }
}

impl<T, const CAP: usize> Ring<T, CAP> {
    /// The pending positions, oldest first.
    pub closed spec fn view(&self) -> Seq<Option<T>> {
        self.pending@
    }

    /// The oldest position that no consumer has claimed.
    pub closed spec fn head(&self) -> usize {
        self.head
    }

    /// The positions that a consumer has claimed and not yet read out, with their values.
    pub closed spec fn reading(&self) -> Map<usize, T> {
        self.reading@
    }

    spec fn shows(&self, k: int) -> bool {
        slot_shows(
            self.slots@[(self.head + k) % (CAP as int)],
            self.head as int,
            k,
            CAP as int,
            self.pending@,
            self.reading@,
        )
    }

    /// The ring is consistent.
    pub closed spec fn wf(&self) -> bool {
        &&& is_pow2(CAP as int)
        &&& self.slots@.len() == CAP
        &&& self.pending@.len() + CAP <= word()
        &&& self.tail == (self.head + self.pending@.len()) % word()
        &&& forall|k: int| 0 <= k < CAP ==> #[trigger] self.shows(k)
        &&& forall|k: int| CAP <= k < self.pending@.len() ==> self.pending@[k] is None
        &&& forall|p: usize| #[trigger]
            self.reading@.contains_key(p) ==> 1 <= offset(p, self.head) <= CAP
    }

    /// Position `pos` is reserved and not yet written.
    pub open spec fn reserved(&self, pos: usize) -> bool {
        &&& offset(self.head(), pos) < self@.len()
        &&& self@[offset(self.head(), pos)] is None
    }

    /// The cell of the `k`th position after the head belongs to that position: the ring
    /// is long enough, and the value of the round before has been read out.
    pub open spec fn cell_ready(&self, k: int) -> bool {
        &&& k < CAP
        &&& !self.reading().contains_key(round_before(self.head() + k, CAP as int))
    }

    /// The sequence number that cell `i` carries.
    pub open spec fn cell_sequence(&self, i: int) -> int {
        let k = (i - self.head()) % (CAP as int);
        if self.reading().contains_key(round_before(self.head() + k, CAP as int)) {
            (self.head() + k - CAP + 1) % word()
        } else if k < self@.len() && self@[k] is Some {
            (self.head() + k + 1) % word()
        } else {
            (self.head() + k) % word()
        }
    }

    /// What every consistent ring keeps: all its values are among the oldest `CAP`
    /// positions.
    pub proof fn lemma_wf(&self)
        requires
            self.wf(),
        ensures
            is_pow2(CAP as int),
            CAP > 0,
            self@.len() + CAP <= word(),
            forall|k: int| CAP <= k < self@.len() ==> self@[k] is None,
            !self.reading().contains_key(self.head()),
    {
        lemma_cap_bound(CAP as int);
        lemma_small_mod(0, word() as nat);
    }

    /// An empty ring whose first position is 0.
    pub fn new() -> (r: Self)
        requires
            is_pow2(CAP as int),
        ensures
            r.wf(),
            r@ == Seq::<Option<T>>::empty(),
            r.head() == 0,
            r.reading() == Map::<usize, T>::empty(),
    {
        let mut slots: Vec<Slot<T>> = Vec::with_capacity(CAP);
        let mut i: usize = 0;
        while i < CAP
            invariant
                i <= CAP,
                slots@.len() == i,
                forall|k: int|
                    0 <= k < i ==> (#[trigger] slots@[k]).sequence == k && slots@[k].data is None,
            decreases CAP - i,
        {
            slots.push(Slot::new(i));
            i = i + 1;
        }
        let r = Ring {
            slots,
            head: 0,
            tail: 0,
            pending: Ghost(Seq::empty()),
            reading: Ghost(Map::empty()),
        };
        proof {
            lemma_cap_bound(CAP as int);
            lemma_small_mod(0, word() as nat);
            assert forall|k: int| 0 <= k < CAP implies #[trigger] r.shows(k) by {
                lemma_small_mod(k as nat, CAP as nat);
                lemma_small_mod(k as nat, word() as nat);
            }
        }
        r
    }

    /// No position is pending.
    pub fn is_empty(&self) -> (b: bool)
        requires
            self.wf(),
        ensures
            b == (self@.len() == 0),
    {
        proof {
            self.lemma_tail();
        }
        self.tail == self.head
    }

    proof fn lemma_tail(&self)
        requires
            self.wf(),
        ensures
            self@.len() < word(),
            offset(self.head, self.tail) == self@.len(),
            self.tail == self.head <==> self@.len() == 0,
    {
        lemma_cap_bound(CAP as int);
        let n = self.pending@.len() as int;
        lemma_small_mod(n as nat, word() as nat);
        lemma_sub_mod_noop(self.head + n, self.head as int, word());
        lemma_small_mod(self.head as nat, word() as nat);
        assert((self.head + n - self.head) % word() == n);
    }

    /// How many positions are pending, written or reserved.
    pub fn len(&self) -> (n: usize)
        requires
            self.wf(),
        ensures
            n == self@.len(),
    {
        proof {
            self.lemma_tail();
            lemma_mod_add_multiples_vanish((self.tail - self.head) as int, word());
            if self.tail < self.head {
                lemma_small_mod((self.tail - self.head + word()) as nat, word() as nat);
            } else {
                lemma_small_mod((self.tail - self.head) as nat, word() as nat);
            }
        }
        self.tail.wrapping_sub(self.head)
    }

    /// The sequence number of cell `i`.
    pub fn sequence_of(&self, i: usize) -> (n: usize)
        requires
            self.wf(),
            i < CAP,
        ensures
            n == self.cell_sequence(i as int),
    {
        proof {
            let h = self.head as int;
            let c = CAP as int;
            let k = (i - h) % c;
            lemma_cap_bound(c);
            lemma_mod_bound(i - h, c);
            lemma_add_mod_noop(h, i - h, c);
            lemma_add_mod_noop(h, k, c);
            lemma_small_mod(k as nat, c as nat);
            lemma_small_mod(i as nat, c as nat);
            assert((h + k) % c == i);
            assert(self.shows(k));
        }
        self.slots[i].sequence
    }

    /// The oldest position that no consumer has claimed, and the next position to be taken.
    pub fn positions(&self) -> (r: (usize, usize))
        requires
            self.wf(),
        ensures
            r.0 == self.head(),
            r.1 == pos_after(self.head(), self@.len() as int),
    {
        (self.head, self.tail)
    }

    /// The cell of an unwritten position carries that position's number, and no value,
    /// exactly when it is ready to be written.
    proof fn lemma_cell(&self, k: int, pos: usize)
        requires
            self.wf(),
            0 <= k <= self.pending@.len(),
            pos == (self.head + k) % word(),
            k == self.pending@.len() || self.pending@[k] is None,
        ensures
            0 < CAP,
            pos % CAP == (self.head + k) % (CAP as int),
            ({
                let s = self.slots@[(pos % CAP) as int];
                (s.sequence == pos && s.data is None) <==> self.cell_ready(k)
            }),
    {
        lemma_cap_bound(CAP as int);
        lemma_index(self.head + k, CAP as int);
        let h = self.head as int;
        if k < CAP {
            assert(self.shows(k));
        } else {
            let k0 = k % (CAP as int);
            lemma_fundamental_div_mod(k, CAP as int);
            lemma_mod_bound(k, CAP as int);
            lemma_add_mod_noop(h, k, CAP as int);
            lemma_add_mod_noop(h, k0, CAP as int);
            lemma_small_mod(k0 as nat, CAP as nat);
            assert((h + k0) % (CAP as int) == (h + k) % (CAP as int));
            assert(self.shows(k0));
            let s = self.slots@[(h + k) % (CAP as int)];
            if s.data is None && s.sequence == pos {
                assert((h + k0) % word() == (h + k) % word());
                lemma_distinct(h, k0, k, word());
                assert(false);
            }
        }
    }

    /// Puts `value` at the next position if its cell is ready; hands it back otherwise.
    pub fn push(&mut self, value: T) -> (r: Result<(), T>)
        requires
            old(self).wf(),
        ensures
            final(self).wf(),
            final(self).head() == old(self).head(),
            final(self).reading() == old(self).reading(),
            r is Ok <==> old(self).cell_ready(old(self)@.len() as int),
            r is Ok ==> final(self)@ == old(self)@.push(Some(value)),
            r is Err ==> final(self)@ == old(self)@ && r->Err_0 == value,
    {
        let pos: usize = self.tail;
        proof {
            self.lemma_cell(self.pending@.len() as int, pos);
            self.lemma_tail();
            lemma_cap_bound(CAP as int);
        }
        let i: usize = pos % CAP;
        if self.slots[i].sequence == pos && self.slots[i].data.is_none() {
            self.claim();
            self.write(i, pos, value);
            assert(self@ =~= old(self)@.push(Some(value)));
            Ok(())
        } else {
            Err(value)
        }
    }

    /// Takes the next position without waiting for its cell to be ready.
    pub fn reserve(&mut self) -> (pos: usize)
        requires
            old(self).wf(),
            old(self)@.len() + CAP < word(),
        ensures
            final(self).wf(),
            final(self).head() == old(self).head(),
            final(self).reading() == old(self).reading(),
            final(self)@ == old(self)@.push(None),
            offset(final(self).head(), pos) == old(self)@.len(),
            final(self).reserved(pos),
    {
        proof {
            self.lemma_tail();
        }
        let pos: usize = self.tail;
        self.claim();
        pos
    }

    /// Writes the reserved position `pos` if its cell is ready by now; hands `value` back
    /// otherwise.
    pub fn fill(&mut self, pos: usize, value: T) -> (r: Result<(), T>)
        requires
            old(self).wf(),
            old(self).reserved(pos),
        ensures
            final(self).wf(),
            final(self).head() == old(self).head(),
            final(self).reading() == old(self).reading(),
            r is Ok <==> old(self).cell_ready(offset(old(self).head(), pos)),
            r is Ok ==> final(self)@ == old(self)@.update(
                offset(old(self).head(), pos),
                Some(value),
            ),
            r is Err ==> final(self)@ == old(self)@ && r->Err_0 == value,
    {
        proof {
            lemma_offset(self.head, pos);
            self.lemma_cell(offset(self.head, pos), pos);
        }
        let i: usize = pos % CAP;
        if self.slots[i].sequence == pos && self.slots[i].data.is_none() {
            self.write(i, pos, value);
            Ok(())
        } else {
            Err(value)
        }
    }

    /// Claims the oldest position if it has been written.
    pub fn begin_pop(&mut self) -> (r: Option<usize>)
        requires
            old(self).wf(),
        ensures
            final(self).wf(),
            r is Some <==> (old(self)@.len() > 0 && old(self)@[0] is Some),
            r is Some ==> {
                &&& r == Some(old(self).head())
                &&& final(self)@ == old(self)@.drop_first()
                &&& final(self).head() == next_pos(old(self).head())
                &&& final(self).reading() == old(self).reading().insert(
                    old(self).head(),
                    old(self)@[0]->Some_0,
                )
            },
            r is None ==> *final(self) == *old(self),
    {
        let ghost pre = *self;
        let ghost h = self.head as int;
        let pos: usize = self.head;
        proof {
            lemma_cap_bound(CAP as int);
            lemma_mod_bound(h, CAP as int);
            lemma_small_mod(h as nat, word() as nat);
            assert(self.shows(0));
            lemma_next(self.head);
            if h == next_pos(self.head) {
                lemma_distinct(h, 0, 1, word());
            }
            if (h + 0 - CAP + 1) % word() == (h + 1) % word() {
                lemma_distinct(h - CAP + 1, 0, CAP as int, word());
            }
        }
        let i: usize = pos % CAP;
        if self.slots[i].sequence == pos.wrapping_add(1) {
            let ghost v = self.pending@[0]->Some_0;
            self.head = pos.wrapping_add(1);
            self.pending = Ghost(self.pending@.drop_first());
            self.reading = Ghost(self.reading@.insert(pos, v));
            proof {
                let n = pre.pending@.len() as int;
                let h1 = self.head as int;
                lemma_add_mod_noop(h + 1, n - 1, word());
                lemma_add_mod_noop(h1, n - 1, word());
                lemma_small_mod(h1 as nat, word() as nat);
                assert forall|k: int| 0 <= k < CAP implies #[trigger] self.shows(k) by {
                    lemma_shift(h, h1, k, CAP as int);
                    lemma_shift(h, h1, k - CAP, CAP as int);
                    lemma_shift(h, h1, k - CAP + 1, CAP as int);
                    lemma_shift(h, h1, k + 1, CAP as int);
                    lemma_mod_bound(h + k + 1 - CAP, word());
                    assert(h1 + k - CAP == h1 + (k - CAP));
                    assert(round_before(h1 + k, CAP as int) == round_before(h + (k + 1), CAP as int));
                    if k + 1 < CAP {
                        assert(pre.shows(k + 1));
                        if round_before(h + (k + 1), CAP as int) == pos {
                            lemma_small_mod(h as nat, word() as nat);
                            lemma_distinct(h + (k + 1) - CAP, 0, CAP - (k + 1), word());
                        }
                    } else {
                        lemma_mod_multiples_vanish(1, h, CAP as int);
                        assert((h + CAP) % (CAP as int) == h % (CAP as int));
                        assert(h + (k + 1) - CAP == h);
                        assert(h1 + (k - CAP + 1) == h1);
                    }
                }
                assert forall|p: usize| #[trigger] self.reading@.contains_key(p) implies 1 <= offset(
                    p,
                    self.head,
                ) <= CAP by {
                    lemma_offset_step(p, pos, self.head);
                    if p == pos {
                        lemma_small_mod(0, word() as nat);
                        lemma_small_mod(1, word() as nat);
                    } else {
                        if offset(p, pos) == CAP {
                            lemma_offset(p, pos);
                            lemma_sub_mod_noop(p + CAP, CAP as int, word());
                            lemma_sub_mod_noop(h, CAP as int, word());
                            lemma_small_mod(p as nat, word() as nat);
                            assert(round_before(h + 0, CAP as int) == p);
                        }
                        lemma_small_mod((offset(p, pos) + 1) as nat, word() as nat);
                    }
                }
            }
            Some(pos)
        } else {
            None
        }
    }

    /// Reads out the claimed position `pos` and frees its cell for the next round.
    pub fn finish_pop(&mut self, pos: usize) -> (r: T)
        requires
            old(self).wf(),
            old(self).reading().contains_key(pos),
        ensures
            final(self).wf(),
            r == old(self).reading()[pos],
            final(self)@ == old(self)@,
            final(self).head() == old(self).head(),
            final(self).reading() == old(self).reading().remove(pos),
    {
        let ghost pre = *self;
        let ghost h = self.head as int;
        let ghost d = offset(pos, self.head);
        let ghost j = CAP - d;
        proof {
            lemma_cap_bound(CAP as int);
            lemma_offset(pos, self.head);
            lemma_small_mod(pos as nat, word() as nat);
            lemma_sub_mod_noop(pos + d, d, word());
            lemma_sub_mod_noop(h, d, word());
            lemma_small_mod(h as nat, word() as nat);
            assert((h - d) % word() == pos);
            assert(h + j - CAP == h - d);
            assert(round_before(h + j, CAP as int) == pos);
            assert(self.shows(j));
            lemma_index(h - d, CAP as int);
            lemma_mod_multiples_vanish(1, h - d, CAP as int);
            assert((h + j) % (CAP as int) == pos % CAP);
            lemma_pos_wraps(pos, CAP);
            lemma_add_mod_noop(h - d, CAP as int, word());
            lemma_add_mod_noop(pos as int, CAP as int, word());
        }
        let i: usize = pos % CAP;
        let mut cell = Slot::new(pos.wrapping_add(CAP));
        self.slots.set_and_swap(i, &mut cell);
        self.reading = Ghost(self.reading@.remove(pos));
        proof {
            assert forall|k: int| 0 <= k < CAP implies #[trigger] self.shows(k) by {
                assert(pre.shows(k));
                lemma_mod_bound(h + k, CAP as int);
                if k != j {
                    if (h + k) % (CAP as int) == (h + j) % (CAP as int) {
                        lemma_distinct(h, k, j, CAP as int);
                    }
                    lemma_mod_bound(h + k - CAP, word());
                    if round_before(h + k, CAP as int) == pos {
                        lemma_distinct(h - CAP, k, j, word());
                    }
                }
            }
        }
        match cell.data {
            Some(v) => v,
            None => {
                proof {
                    assert(false);
                }
                vstd::pervasive::unreached()
            },
        }
    }

    /// Takes the oldest value, if the oldest position has been written.
    pub fn pop(&mut self) -> (r: Option<T>)
        requires
            old(self).wf(),
        ensures
            final(self).wf(),
            final(self).reading() == old(self).reading(),
            r is Some <==> (old(self)@.len() > 0 && old(self)@[0] is Some),
            r is Some ==> {
                &&& r == old(self)@[0]
                &&& final(self)@ == old(self)@.drop_first()
                &&& final(self).head() == next_pos(old(self).head())
            },
            r is None ==> final(self)@ == old(self)@ && final(self).head() == old(self).head(),
    {
        proof {
            self.lemma_wf();
        }
        match self.begin_pop() {
            Some(pos) => {
                let v = self.finish_pop(pos);
                assert(self.reading() =~= old(self).reading());
                Some(v)
            },
            None => None,
        }
    }

    /// Moves values from the front of `buf` into the ring while cells are ready, and says
    /// how many went.
    pub fn push_batch(&mut self, buf: &mut Vec<T>) -> (n: usize)
        requires
            old(self).wf(),
            old(self).reading() == Map::<usize, T>::empty(),
        ensures
            final(self).wf(),
            final(self).reading() == old(self).reading(),
            final(self).head() == old(self).head(),
            n == batch_room(old(self)@.len() as int, CAP as int, old(buf)@.len() as int),
            final(self)@ == old(self)@ + written(old(buf)@.subrange(0, n as int)),
            final(buf)@ == old(buf)@.subrange(n as int, old(buf)@.len() as int),
            final(buf)@.len() == 0 || final(self)@.len() >= CAP,
            n > 0 ==> final(self)@.len() <= CAP,
    {
        let ghost b0 = buf@;
        let ghost q0 = self@;
        let used: usize = self.len();
        if used >= CAP {
            proof {
                assert(written(b0.subrange(0, 0)) =~= Seq::empty());
                assert(q0 =~= q0 + written(b0.subrange(0, 0)));
                assert(b0 =~= b0.subrange(0, b0.len() as int));
            }
            return 0;
        }
        let room: usize = CAP - used;
        let n: usize = if buf.len() < room { buf.len() } else { room };
        let mut rest = buf.split_off(n);
        let mut stack: Vec<T> = Vec::with_capacity(n);
        let ghost front = buf@;
        while buf.len() > 0
            invariant
                front == b0.subrange(0, n as int),
                front.len() == n,
                buf@.len() <= n,
                buf@ == front.subrange(0, buf@.len() as int),
                stack@.len() == n - buf@.len(),
                forall|i: int| 0 <= i < stack@.len() ==> #[trigger] stack@[i] == front[n - 1 - i],
            decreases buf@.len(),
        {
            match buf.pop() {
                Some(v) => {
                    assert(buf@ =~= front.subrange(0, buf@.len() as int));
                    stack.push(v);
                },
                None => {},
            }
        }
        let mut i: usize = 0;
        proof {
            assert(written(front.subrange(0, 0)) =~= Seq::empty());
            assert(q0 =~= q0 + written(front.subrange(0, 0)));
        }
        while i < n
            invariant
                i <= n,
                self.wf(),
                self.reading() == Map::<usize, T>::empty(),
                self.head() == old(self).head(),
                front.len() == n,
                q0.len() + n <= CAP,
                self@ == q0 + written(front.subrange(0, i as int)),
                stack@.len() == n - i,
                forall|j: int| 0 <= j < stack@.len() ==> #[trigger] stack@[j] == front[n - 1 - j],
            decreases n - i,
        {
            match stack.pop() {
                Some(v) => {
                    let ghost before = self@;
                    assert(v == front[i as int]);
                    let r = self.push(v);
                    proof {
                        assert(front.subrange(0, i + 1) =~= front.subrange(0, i as int).push(
                            front[i as int],
                        ));
                        assert(written(front.subrange(0, i + 1)) =~= written(
                            front.subrange(0, i as int),
                        ).push(Some(front[i as int])));
                        assert(self@ =~= q0 + written(front.subrange(0, i + 1)));
                    }
                },
                None => {},
            }
            i = i + 1;
        }
        proof {
            assert(front.subrange(0, n as int) =~= front);
        }
        buf.append(&mut rest);
        assert(buf@ =~= b0.subrange(n as int, b0.len() as int));
        n
    }

    /// Moves up to `max` values, oldest first, to the end of `buf`, and says how many.
    pub fn pop_batch(&mut self, buf: &mut Vec<T>, max: usize) -> (n: usize)
        requires
            old(self).wf(),
        ensures
            final(self).wf(),
            final(self).reading() == old(self).reading(),
            n == batch_ready(old(self)@, max as int),
            final(self).head() == pos_after(old(self).head(), n as int),
            final(self)@ == old(self)@.subrange(n as int, old(self)@.len() as int),
            final(buf)@ == old(buf)@ + values(old(self)@.subrange(0, n as int)),
            n == max || n == old(self)@.len() || old(self)@[n as int] is None,
    {
        let ghost q0 = self@;
        let ghost b0 = buf@;
        let ghost h0 = self.head();
        let mut n: usize = 0;
        proof {
            assert(q0 =~= q0.subrange(0, q0.len() as int));
            assert(values(q0.subrange(0, 0)) =~= Seq::empty());
            assert(b0 =~= b0 + values(q0.subrange(0, 0)));
            lemma_pos_after(h0, 0);
            lemma_ready(q0);
        }
        while n < max
            invariant
                n <= max,
                n <= ready(q0),
                ready(q0) <= q0.len(),
                self.wf(),
                self.reading() == old(self).reading(),
                q0 == old(self)@,
                h0 == old(self).head(),
                b0 == old(buf)@,
                self.head() == pos_after(h0, n as int),
                self@ == q0.subrange(n as int, q0.len() as int),
                buf@ == b0 + values(q0.subrange(0, n as int)),
            decreases max - n,
        {
            proof {
                lemma_ready_skip(q0, n as int);
                lemma_pos_after(h0, n as int);
                lemma_ready(q0);
            }
            match self.pop() {
                Some(v) => {
                    buf.push(v);
                    proof {
                        assert(q0.subrange(n as int, q0.len() as int).drop_first() =~= q0.subrange(
                            n + 1,
                            q0.len() as int,
                        ));
                        assert(q0.subrange(0, n + 1) =~= q0.subrange(0, n as int).push(
                            q0[n as int],
                        ));
                        assert(values(q0.subrange(0, n + 1)) =~= values(
                            q0.subrange(0, n as int),
                        ).push(v));
                        assert(buf@ =~= b0 + values(q0.subrange(0, n + 1)));
                    }
                    n = n + 1;
                },
                None => {
                    return n;
                },
            }
        }
        n
    }

    /// Moves the tail one position on.
    fn claim(&mut self)
        requires
            old(self).wf(),
            old(self)@.len() + CAP < word(),
        ensures
            final(self).wf(),
            final(self).head == old(self).head,
            final(self).reading == old(self).reading,
            final(self)@ == old(self)@.push(None),
    {
        let ghost pre = *self;
        let ghost n = self.pending@.len() as int;
        let ghost h = self.head as int;
        self.tail = self.tail.wrapping_add(1);
        self.pending = Ghost(self.pending@.push(None));
        proof {
            lemma_cap_bound(CAP as int);
            lemma_add_mod_noop(h + n, 1, word());
            lemma_small_mod(1, word() as nat);
            lemma_next(pre.tail);
            assert forall|k: int| 0 <= k < CAP implies #[trigger] self.shows(k) by {
                assert(pre.shows(k));
            }
        }
    }

    /// Writes the reserved position `pos`, whose cell `i` is ready.
    fn write(&mut self, i: usize, pos: usize, value: T)
        requires
            old(self).wf(),
            old(self).reserved(pos),
            old(self).cell_ready(offset(old(self).head, pos)),
            i == pos % CAP,
        ensures
            final(self).wf(),
            final(self).head == old(self).head,
            final(self).reading == old(self).reading,
            final(self)@ == old(self)@.update(offset(old(self).head, pos), Some(value)),
    {
        let ghost pre = *self;
        let ghost h = self.head as int;
        let ghost j = offset(self.head, pos);
        proof {
            lemma_cap_bound(CAP as int);
            lemma_mod_bound((pos - h) as int, word());
            lemma_offset(self.head, pos);
            lemma_index(h + j, CAP as int);
        }
        self.slots.set(i, Slot { sequence: pos.wrapping_add(1), data: Some(value) });
        self.pending = Ghost(self.pending@.update(j, Some(value)));
        proof {
            lemma_add_mod_noop(h + j, 1, word());
            lemma_small_mod(1, word() as nat);
            lemma_small_mod(pos as nat, word() as nat);
            lemma_next(pos);
            assert forall|k: int| 0 <= k < CAP implies #[trigger] self.shows(k) by {
                assert(pre.shows(k));
                lemma_mod_bound(h + k, CAP as int);
                if k != j {
                    if (h + k) % (CAP as int) == (h + j) % (CAP as int) {
                        lemma_distinct(h, k, j, CAP as int);
                    }
                }
            }
        }
    }
}

/// Moving the end point one position on moves it one position further away.
proof fn lemma_offset_step(p: usize, pos: usize, next: usize)
    requires
        next == (pos + 1) % word(),
    ensures
        offset(p, next) == (offset(p, pos) + 1) % word(),
{
    lemma_sub_mod_noop(pos + 1, p as int, word());
    lemma_sub_mod_noop(next as int, p as int, word());
    lemma_small_mod(next as nat, word() as nat);
    lemma_add_mod_noop(pos - p, 1, word());
    lemma_small_mod(1, word() as nat);
}

/// How many of `want` values fit behind `used` pending positions.
pub open spec fn batch_room(used: int, cap: int, want: int) -> int {
    if used >= cap {
        0
    } else if want < cap - used {
        want
    } else {
        cap - used
    }
}

/// How many values a batch of at most `max` takes.
pub open spec fn batch_ready<T>(pending: Seq<Option<T>>, max: int) -> int {
    if max < ready(pending) {
        max
    } else {
        ready(pending) as int
    }
}

/// How many of the oldest positions are written, without a gap.
pub open spec fn ready<T>(pending: Seq<Option<T>>) -> nat
    decreases pending.len(),
{
    if pending.len() == 0 || pending[0] is None {
        0
    } else {
        1 + ready(pending.drop_first())
    }
}

/// The values of written positions.
pub open spec fn values<T>(pending: Seq<Option<T>>) -> Seq<T> {
    pending.map_values(|o: Option<T>| o->Some_0)
}

/// Written positions for values.
pub open spec fn written<T>(values: Seq<T>) -> Seq<Option<T>> {
    values.map_values(|v: T| Some(v))
}

pub proof fn lemma_ready<T>(pending: Seq<Option<T>>)
    ensures
        ready(pending) <= pending.len(),
        forall|k: int| 0 <= k < ready(pending) ==> (#[trigger] pending[k]) is Some,
        ready(pending) < pending.len() ==> pending[ready(pending) as int] is None,
    decreases pending.len(),
{
    if pending.len() > 0 && pending[0] is Some {
        let t = pending.drop_first();
        lemma_ready(t);
        assert forall|k: int| 0 <= k < ready(pending) implies (#[trigger] pending[k]) is Some by {
            if k > 0 {
                assert(t[k - 1] is Some);
            }
        }
    }
}

/// Dropping `k` ready positions leaves `k` fewer.
pub proof fn lemma_ready_skip<T>(pending: Seq<Option<T>>, k: int)
    requires
        0 <= k <= ready(pending),
    ensures
        k <= pending.len(),
        ready(pending.subrange(k, pending.len() as int)) == ready(pending) - k,
    decreases k,
{
    lemma_ready(pending);
    if k == 0 {
        assert(pending.subrange(0, pending.len() as int) =~= pending);
    } else {
        let t = pending.drop_first();
        lemma_ready_skip(t, k - 1);
        assert(t.subrange(k - 1, t.len() as int) =~= pending.subrange(k, pending.len() as int));
    }
}

/// A ring without open reservations can be read to its end.
pub proof fn lemma_ready_all<T>(pending: Seq<Option<T>>)
    requires
        forall|k: int| 0 <= k < pending.len() ==> (#[trigger] pending[k]) is Some,
    ensures
        ready(pending) == pending.len(),
    decreases pending.len(),
{
    if pending.len() > 0 {
        let t = pending.drop_first();
        assert forall|k: int| 0 <= k < t.len() implies (#[trigger] t[k]) is Some by {
            assert(pending[k + 1] is Some);
        }
        lemma_ready_all(t);
    }
}

/// The position `n` after `pos`.
pub open spec fn pos_after(pos: usize, n: int) -> usize {
    ((pos + n) % word()) as usize
}

pub proof fn lemma_pos_after(pos: usize, n: int)
    ensures
        pos_after(pos, 0) == pos,
        next_pos(pos_after(pos, n)) == pos_after(pos, n + 1),
        pos_after(pos, 1) == next_pos(pos),
{
    lemma_small_mod(pos as nat, word() as nat);
    lemma_mod_bound(pos + n, word());
    lemma_mod_bound(pos + n + 1, word());
    let a = (pos + n) % word();
    lemma_add_mod_noop(pos + n, 1, word());
    lemma_add_mod_noop(a, 1, word());
    lemma_small_mod(a as nat, word() as nat);
}

/// The position after `pos`.
pub open spec fn next_pos(pos: usize) -> usize {
    ((pos + 1) % word()) as usize
}

proof fn lemma_pos_wraps(pos: usize, n: usize)
    ensures
        pos.wrapping_add(n) == (pos + n) % word(),
{
    lemma_mod_bound(pos + n, word());
    if pos + n < word() {
        lemma_small_mod((pos + n) as nat, word() as nat);
    } else {
        lemma_mod_multiples_vanish(1, pos + n - word(), word());
        lemma_small_mod((pos + n - word()) as nat, word() as nat);
    }
}

/// Adding 1 with wrap-around goes to the next position.
pub proof fn lemma_next(pos: usize)
    ensures
        pos.wrapping_add(1) == next_pos(pos),
        next_pos(pos) == (pos + 1) % word(),
        0 <= (pos + 1) % word() < word(),
{
    lemma_pos_wraps(pos, 1);
    lemma_mod_bound(pos + 1, word());
}

/// Counting from the position after `h` is counting one further from `h`, for cells and
/// for sequence numbers alike.
proof fn lemma_shift(h: int, h1: int, k: int, cap: int)
    requires
        is_pow2(cap),
        cap <= usize::MAX,
        h1 == (h + 1) % word(),
    ensures
        (h1 + k) % cap == (h + k + 1) % cap,
        (h1 + k) % word() == (h + k + 1) % word(),
{
    lemma_index(h + 1, cap);
    lemma_add_mod_noop(h1, k, cap);
    lemma_add_mod_noop(h + 1, k, cap);
    lemma_add_mod_noop(h1, k, word());
    lemma_add_mod_noop(h + 1, k, word());
    lemma_mod_bound(h + 1, word());
    lemma_small_mod(h1 as nat, word() as nat);
}

/// `pos` lies `offset(head, pos)` positions after `head`.
pub proof fn lemma_offset(head: usize, pos: usize)
    ensures
        0 <= offset(head, pos) < word(),
        (head + offset(head, pos)) % word() == pos,
{
    lemma_mod_bound((pos - head) as int, word());
    lemma_add_mod_noop(head as int, (pos - head) as int, word());
    lemma_add_mod_noop(head as int, offset(head, pos), word());
    lemma_small_mod(offset(head, pos) as nat, word() as nat);
    lemma_small_mod(pos as nat, word() as nat);
}

/// Positions count up by one and start over after the last machine word; the distance to the
/// position `k` places on is `k`.
pub proof fn law_positions_count_up(pos: usize, k: int)
    requires
        0 <= k <= usize::MAX,
    ensures
        pos < usize::MAX ==> next_pos(pos) == pos + 1,
        pos == usize::MAX ==> next_pos(pos) == 0,
        pos + k <= usize::MAX ==> pos_after(pos, k) == pos + k,
        pos + k > usize::MAX ==> pos_after(pos, k) == pos + k - usize::MAX - 1,
        offset(pos, pos_after(pos, k)) == k,
{
    if pos + k <= usize::MAX {
        lemma_small_mod((pos + k) as nat, word() as nat);
        lemma_small_mod(k as nat, word() as nat);
    } else {
        lemma_mod_add_multiples_vanish(pos + k - word(), word());
        lemma_small_mod((pos + k - word()) as nat, word() as nat);
        lemma_mod_add_multiples_vanish(k - word(), word());
        lemma_small_mod(k as nat, word() as nat);
    }
    lemma_pos_after(pos, 0);
    if pos < usize::MAX {
        lemma_small_mod((pos + 1) as nat, word() as nat);
    } else {
        lemma_mod_add_multiples_vanish(0, word());
        lemma_small_mod(0, word() as nat);
    }
}

/// What is written can be read: the values of written positions are what was written.
pub proof fn law_written_values<T>(vs: Seq<T>)
    ensures
        values(written(vs)) == vs,
        written(vs).len() == vs.len(),
        forall|k: int| 0 <= k < vs.len() ==> #[trigger] written(vs)[k] == Some(vs[k]),
        ready(written(vs)) == vs.len(),
{
    assert(values(written(vs)) =~= vs);
    lemma_ready_all(written(vs));
}

} // verus!
