//! The fixed-capacity store of styled lines, which evicts its oldest line to
//! admit a new one once full.
use vstd::prelude::*;
use crate::style::StyledLine;
use circular_buffer::CircularBuffer;

verus! {

/// How many lines the console keeps.
pub const LOG_CAPACITY: usize = 3072;

#[verifier::external_type_specification]
#[verifier::external_body]
#[verifier::reject_recursive_types(T)]
pub struct ExCircularBuffer<const N: usize, T>(CircularBuffer<N, T>);

/// The lines that a circular buffer holds, front (oldest) first.
pub uninterp spec fn buffer_lines(b: CircularBuffer<LOG_CAPACITY, StyledLine>) -> Seq<StyledLine>;

/// Relies on `CircularBuffer::boxed`: a new buffer on the heap, empty.
#[verifier::external_body]
fn buffer_boxed() -> (r: Box<CircularBuffer<LOG_CAPACITY, StyledLine>>)
    ensures
        buffer_lines(*r) == Seq::<StyledLine>::empty(),
{
    CircularBuffer::boxed()
}

/// Relies on `CircularBuffer::len`: the number of lines held, which never
/// exceeds the capacity `N`.
#[verifier::external_body]
fn buffer_len(b: &CircularBuffer<LOG_CAPACITY, StyledLine>) -> (r: usize)
    ensures
        r == buffer_lines(*b).len(),
        r <= LOG_CAPACITY,
{
    b.len()
}

/// Relies on `CircularBuffer::get`: the line at `index` from the front, if any.
#[verifier::external_body]
fn buffer_get(b: &CircularBuffer<LOG_CAPACITY, StyledLine>, index: usize) -> (r: Option<
    &StyledLine,
>)
    ensures
        index < buffer_lines(*b).len() ==> r == Some(&buffer_lines(*b)[index as int]),
        index >= buffer_lines(*b).len() ==> r is None,
{
    b.get(index)
}

/// Relies on `CircularBuffer::push_back`: appends at the back; when the buffer
/// is full, the front line is taken out first and handed back.
#[verifier::external_body]
fn buffer_push_back(b: &mut CircularBuffer<LOG_CAPACITY, StyledLine>, item: StyledLine) -> (r:
    Option<StyledLine>)
    ensures
        buffer_lines(*old(b)).len() < LOG_CAPACITY ==> buffer_lines(*final(b)) == buffer_lines(
            *old(b),
        ).push(item) && r is None,
        buffer_lines(*old(b)).len() >= LOG_CAPACITY ==> buffer_lines(*final(b)) == buffer_lines(
            *old(b),
        ).drop_first().push(item) && r == Some(buffer_lines(*old(b))[0]),
{
    b.push_back(item)
}

/// The last `n` items of `s`, or all of them when there are fewer.
pub open spec fn keep_last<T>(s: Seq<T>, n: nat) -> Seq<T> {
    if s.len() <= n {
        s
    } else {
        s.subrange(s.len() - n, s.len() as int)
    }
}

/// The contents after pushing `items` one after another onto `s`.
pub open spec fn push_all(s: Seq<StyledLine>, items: Seq<StyledLine>) -> Seq<StyledLine>
    decreases items.len(),
{
    if items.len() == 0 {
        s
    } else {
        keep_last(push_all(s, items.drop_last()).push(items.last()), LOG_CAPACITY as nat)
    }
}

/// Keeping the last `n` after one more push is keeping the last `n` of the
/// whole.
pub proof fn lemma_keep_last_push(t: Seq<StyledLine>, x: StyledLine, n: nat)
    requires
        n >= 1,
    ensures
        keep_last(keep_last(t, n).push(x), n) == keep_last(t.push(x), n),
{
    if t.len() > n {
        let k = keep_last(t, n);
        assert(keep_last(k.push(x), n) =~= keep_last(t.push(x), n));
    }
}

/// Bounded retention: pushing `items` one by one onto a ring holding `s`
/// leaves the last `LOG_CAPACITY` lines of `s` followed by `items`, in order.
pub proof fn lemma_push_all(s: Seq<StyledLine>, items: Seq<StyledLine>)
    requires
        s.len() <= LOG_CAPACITY,
    ensures
        push_all(s, items) == keep_last(s + items, LOG_CAPACITY as nat),
    decreases items.len(),
{
    if items.len() == 0 {
        assert(s + items =~= s);
    } else {
        lemma_push_all(s, items.drop_last());
        lemma_keep_last_push(s + items.drop_last(), items.last(), LOG_CAPACITY as nat);
        assert((s + items.drop_last()).push(items.last()) =~= s + items);
    }
}

/// Bounded retention: after pushing lines L1..LM (M > capacity) onto an
/// empty ring, it holds exactly the last `LOG_CAPACITY` of them, in order.
pub proof fn lemma_bounded_retention(items: Seq<StyledLine>)
    requires
        items.len() > LOG_CAPACITY,
    ensures
        push_all(Seq::empty(), items) == items.subrange(
            items.len() - LOG_CAPACITY,
            items.len() as int,
        ),
        push_all(Seq::empty(), items).len() == LOG_CAPACITY,
{
    lemma_push_all(Seq::empty(), items);
    assert(Seq::<StyledLine>::empty() + items =~= items);
}

/// FIFO eviction: a push onto a full ring removes exactly the oldest line;
/// the others keep their order, and the new line comes last.
pub proof fn lemma_fifo_eviction(s: Seq<StyledLine>, line: StyledLine)
    requires
        s.len() == LOG_CAPACITY,
    ensures
        keep_last(s.push(line), LOG_CAPACITY as nat) == s.drop_first().push(line),
{
    assert(keep_last(s.push(line), LOG_CAPACITY as nat) =~= s.drop_first().push(line));
}

/// A ring of at most `LOG_CAPACITY` styled lines, in insertion order.
pub struct LogRing {
    buf: Box<CircularBuffer<LOG_CAPACITY, StyledLine>>,
}

impl View for LogRing {
    type V = Seq<StyledLine>;

    closed spec fn view(&self) -> Seq<StyledLine> {
        buffer_lines(*self.buf)
    }
}

impl LogRing {
    /// An empty ring, held on the heap.
    pub fn new() -> (r: Self)
        ensures
            r@ == Seq::<StyledLine>::empty(),
    {
        LogRing { buf: buffer_boxed() }
    }

    /// The number of lines held; never more than `LOG_CAPACITY`.
    pub fn len(&self) -> (r: usize)
        ensures
            r == self@.len(),
            r <= LOG_CAPACITY,
    {
        buffer_len(&self.buf)
    }

    /// The line at `index`, counting from the oldest.
    pub fn get(&self, index: usize) -> (r: Option<&StyledLine>)
        ensures
            index < self@.len() ==> r == Some(&self@[index as int]),
            index >= self@.len() ==> r is None,
    {
        buffer_get(&self.buf, index)
    }

    /// Appends `line` as the newest; when the ring is full, the oldest line is
    /// evicted first.
    pub fn push_back(&mut self, line: StyledLine)
        ensures
            final(self)@ == keep_last(old(self)@.push(line), LOG_CAPACITY as nat),
    {
        let _held = buffer_len(&self.buf);
        let ghost before = self@;
        let _evicted = buffer_push_back(&mut self.buf, line);
        proof {
            let pushed = before.push(line);
            if before.len() >= LOG_CAPACITY {
                assert(pushed.subrange(pushed.len() - LOG_CAPACITY, pushed.len() as int)
                    =~= before.drop_first().push(line));
            }
        }
    }
}

} // verus!
