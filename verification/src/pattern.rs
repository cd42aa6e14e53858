use vstd::prelude::*;
use crate::bit_matrix::BitMatrix;

verus! {

/// Width of a bar or space, in pixels or modules.
pub type PatternType = u16;

/// Sum of a sequence of widths.
pub open spec fn sum_of(s: Seq<u16>) -> nat
    decreases s.len(),
{
    if s.len() == 0 {
        0
    } else {
        sum_of(s.drop_last()) + s.last() as nat
    }
}

proof fn lemma_sum_of_prefix(s: Seq<u16>, i: int)
    requires
        0 <= i <= s.len(),
    ensures
        sum_of(s.take(i)) <= sum_of(s),
    decreases s.len(),
{
    if i < s.len() {
        assert(s.drop_last().take(i) =~= s.take(i));
        lemma_sum_of_prefix(s.drop_last(), i);
    } else {
        assert(s.take(i) =~= s);
    }
}

proof fn lemma_sum_of_push(s: Seq<u16>, i: int)
    requires
        0 <= i < s.len(),
    ensures
        sum_of(s.take(i + 1)) == sum_of(s.take(i)) + s[i],
{
    assert(s.take(i + 1).drop_last() =~= s.take(i));
}

fn sum_range(data: &Vec<u16>, from: usize, to: usize) -> (res: u16)
    requires
        from <= to <= data@.len(),
        sum_of(data@.subrange(from as int, to as int)) <= u16::MAX,
    ensures
        res == sum_of(data@.subrange(from as int, to as int)),
{
    let ghost s = data@.subrange(from as int, to as int);
    let mut total: u16 = 0;
    let mut i: usize = from;
    while i < to
        invariant
            from <= i <= to <= data@.len(),
            s == data@.subrange(from as int, to as int),
            sum_of(s) <= u16::MAX,
            total == sum_of(s.take(i - from)),
        decreases to - i,
    {
        proof {
            lemma_sum_of_push(s, i - from);
            lemma_sum_of_prefix(s, i - from + 1);
        }
        total = total + data[i];
        i = i + 1;
    }
    proof {
        assert(s.take(to - from) =~= s);
    }
    total
}

/// Widths of alternating spaces and bars along a line, starting with the
/// space in front of the first bar.
#[derive(Debug)]
pub struct PatternRow(pub Vec<PatternType>);

impl PatternRow {
    /// The row with the given widths.
    pub fn new(v: Vec<PatternType>) -> (res: Self)
        ensures
            res.0@ == v@,
    {
        PatternRow(v)
    }

    /// Number of widths.
    pub fn len(&self) -> (res: usize)
        ensures
            res == self.0@.len(),
    {
        self.0.len()
    }

    /// Whether the row has no widths.
    pub fn is_empty(&self) -> (res: bool)
        ensures
            res == (self.0@.len() == 0),
    {
        self.0.len() == 0
    }

    /// A view of the whole row from its first bar.
    pub fn into_pattern_view(&self) -> (res: PatternView<'_>)
        ensures
            res.spec_data() == self.0@,
            res.spec_start() == 1,
            res.spec_count() == self.0@.len(),
            res.spec_current() == 0,
    {
        PatternView::new(self)
    }

    /// Sum of the widths; it must fit in a width.
    pub fn sum(&self) -> (res: PatternType)
        requires
            sum_of(self.0@) <= u16::MAX,
        ensures
            res == sum_of(self.0@),
    {
        proof {
            assert(self.0@.subrange(0, self.0@.len() as int) =~= self.0@);
        }
        sum_range(&self.0, 0, self.0.len())
    }

    /// Reverses the order of the widths.
    pub fn rev(&mut self)
        ensures
            final(self).0@ == old(self).0@.reverse(),
    {
        let n = self.0.len();
        let mut out: Vec<u16> = Vec::new();
        let mut i: usize = n;
        while i > 0
            invariant
                i <= n,
                n == self.0@.len(),
                out@ == self.0@.subrange(i as int, n as int).reverse(),
            decreases i,
        {
            i = i - 1;
            out.push(self.0[i]);
            assert(out@ =~= self.0@.subrange(i as int, n as int).reverse());
        }
        assert(self.0@.subrange(0, n as int) =~= self.0@);
        self.0 = out;
    }
}

impl Default for PatternRow {
    /// The empty row.
    fn default() -> (res: Self)
        ensures
            res.0@ == Seq::<u16>::empty(),
    {
        PatternRow(Vec::new())
    }
}

/// A window onto a pattern row: `count` widths from index `start + current`.
#[derive(Debug, Clone, Copy)]
pub struct PatternView<'a> {
    data: &'a PatternRow,
    start: usize,
    count: usize,
    current: usize,
}

/// The widths that a window of `count` from `from` covers, clipped to the
/// row.
pub open spec fn window(data: Seq<u16>, from: int, count: int) -> Seq<u16> {
    let lo = if from < data.len() {
        from
    } else {
        data.len() as int
    };
    let hi = if from + count < data.len() {
        from + count
    } else {
        data.len() as int
    };
    data.subrange(lo, hi)
}

impl<'a> PatternView<'a> {
    /// The widths of the row.
    pub closed spec fn spec_data(&self) -> Seq<u16> {
        self.data.0@
    }

    /// Index of the view's first element in the row, before shifting.
    pub closed spec fn spec_start(&self) -> int {
        self.start as int
    }

    /// Number of elements in the view.
    pub closed spec fn spec_count(&self) -> int {
        self.count as int
    }

    /// How far the view was shifted.
    pub closed spec fn spec_current(&self) -> int {
        self.current as int
    }

    /// Index in the row of the view's current first element.
    pub open spec fn spec_position(&self) -> int {
        self.spec_start() + self.spec_current()
    }

    /// A view of the whole row from its first bar; the row starts with the
    /// space in front of it.
    pub fn new(bars: &'a PatternRow) -> (res: PatternView<'a>)
        ensures
            res.spec_data() == bars.0@,
            res.spec_start() == 1,
            res.spec_count() == bars.0@.len(),
            res.spec_current() == 0,
    {
        PatternView { data: bars, start: 1, count: bars.0.len(), current: 0 }
    }

    /// A view of `size` elements from `start`, shifted by `base`.
    pub fn with_config(bars: &'a PatternRow, start: usize, size: usize, base: usize, end: usize) -> (res: PatternView<'a>)
        ensures
            res.spec_data() == bars.0@,
            res.spec_start() == start,
            res.spec_count() == size,
            res.spec_current() == base,
    {
        PatternView { data: bars, start, count: size, current: base }
    }

    /// The row the view looks at.
    pub fn data(&self) -> (res: &PatternRow)
        ensures
            res.0@ == self.spec_data(),
    {
        self.data
    }

    /// The width at the view's start index, if the row has one there.
    pub fn begin(&self) -> (res: Option<PatternType>)
        ensures
            res == (if self.spec_start() < self.spec_data().len() {
                Some(self.spec_data()[self.spec_start()])
            } else {
                None::<u16>
            }),
    {
        if self.start < self.data.0.len() {
            Some(self.data.0[self.start])
        } else {
            None
        }
    }

    /// The length of the row, as a width.
    pub fn end(&self) -> (res: Option<PatternType>)
        ensures
            res == Some(self.spec_data().len() as u16),
    {
        Some(self.data.0.len() as u16)
    }

    /// Sum of the widths: of the whole row when the view covers as many
    /// elements as the row has; otherwise of the first `n` elements of the
    /// view (all of them when `n` is `None`), clipped to the row.
    pub fn sum(&self, n: Option<usize>) -> (res: PatternType)
        requires
            self.spec_count() == self.spec_data().len() ==> sum_of(self.spec_data()) <= u16::MAX,
            self.spec_count() != self.spec_data().len() ==> sum_of(
                window(
                    self.spec_data(),
                    self.spec_position(),
                    match n {
                        Some(k) => k as int,
                        None => self.spec_count(),
                    },
                ),
            ) <= u16::MAX,
            self.spec_position() <= usize::MAX,
        ensures
            self.spec_count() == self.spec_data().len() ==> res == sum_of(self.spec_data()),
            self.spec_count() != self.spec_data().len() ==> res == sum_of(
                window(
                    self.spec_data(),
                    self.spec_position(),
                    match n {
                        Some(k) => k as int,
                        None => self.spec_count(),
                    },
                ),
            ),
    {
        let len = self.data.0.len();
        if self.count == len {
            return self.data.sum();
        }
        let take = match n {
            Some(k) => k,
            None => self.count,
        };
        let from = self.start + self.current;
        let lo = if from < len {
            from
        } else {
            len
        };
        let hi = if from < len && take < len - from {
            from + take
        } else {
            len
        };
        sum_range(&self.data.0, lo, hi)
    }

    /// An iterator over the widths of the view.
    pub fn iter(&'a self) -> (res: PatternViewIterator<'a>)
        ensures
            res.spec_view() == *self,
            res.spec_position() == 0,
    {
        PatternViewIterator { pattern_view: self, current_position: 0 }
    }

    /// Number of elements in the view.
    pub fn size(&self) -> (res: usize)
        ensures
            res == self.spec_count(),
    {
        self.count
    }

    /// How far the view was shifted from its start.
    pub fn index(&self) -> (res: usize)
        ensures
            res == self.spec_current(),
    {
        self.current
    }

    /// The element `index` places from the view's current first element
    /// (before it when negative), if the row has it; nothing when `index`
    /// reaches further than the row is long.
    pub fn try_get_index(&self, index: isize) -> (res: Option<PatternType>)
        requires
            index > isize::MIN,
            self.spec_position() <= isize::MAX,
            self.spec_data().len() <= isize::MAX,
        ensures
            ({
                let magnitude = if index < 0 {
                    -index
                } else {
                    index as int
                };
                let spot = self.spec_position() + index;
                res == if magnitude <= self.spec_data().len() && 0 <= spot < self.spec_data().len() {
                    Some(self.spec_data()[spot])
                } else {
                    None::<PatternType>
                }
            }),
    {
        let len = self.data.0.len();
        let magnitude: usize = if index < 0 {
            (-index) as usize
        } else {
            index as usize
        };
        if magnitude > len {
            return None;
        }
        let position = self.start + self.current;
        if index >= 0 {
            let spot = position + magnitude;
            if spot < len {
                Some(self.data.0[spot])
            } else {
                None
            }
        } else {
            if magnitude > position {
                return None;
            }
            let spot = position - magnitude;
            if spot < len {
                Some(self.data.0[spot])
            } else {
                None
            }
        }
    }

    /// Sum of the widths in front of the view.
    pub fn pixels_in_front(&self) -> (res: PatternType)
        requires
            self.spec_position() <= usize::MAX,
            sum_of(window(self.spec_data(), 0, self.spec_position())) <= u16::MAX,
        ensures
            res == sum_of(window(self.spec_data(), 0, self.spec_position())),
    {
        let len = self.data.0.len();
        let to = self.start + self.current;
        let hi = if to < len {
            to
        } else {
            len
        };
        sum_range(&self.data.0, 0, hi)
    }

    /// Sum of the widths up to the end of the view, less one (not below
    /// zero).
    pub fn pixels_till_end(&self) -> (res: PatternType)
        requires
            self.spec_position() + self.spec_count() <= usize::MAX,
            sum_of(window(self.spec_data(), 0, self.spec_position() + self.spec_count())) <= u16::MAX,
        ensures
            res == if sum_of(window(self.spec_data(), 0, self.spec_position() + self.spec_count())) == 0 {
                0
            } else {
                sum_of(window(self.spec_data(), 0, self.spec_position() + self.spec_count())) - 1
            },
    {
        let len = self.data.0.len();
        let to = self.start + self.current + self.count;
        let hi = if to < len {
            to
        } else {
            len
        };
        let total = sum_range(&self.data.0, 0, hi);
        if total == 0 {
            0
        } else {
            total - 1
        }
    }

    /// Whether the view was not shifted.
    pub fn is_at_first_bar(&self) -> (res: bool)
        ensures
            res == (self.spec_current() == 0),
    {
        self.current == 0
    }

    /// Whether the view was shifted to its last element.
    pub fn is_at_last_bar(&self) -> (res: bool)
        requires
            self.spec_start() + self.spec_count() >= 1,
            self.spec_start() + self.spec_count() <= usize::MAX,
        ensures
            res == (self.spec_current() == self.spec_start() + self.spec_count() - 1),
    {
        self.current == self.start + self.count - 1
    }

    /// Whether `n` elements from the current one lie inside a nonempty row.
    pub fn is_valid_with_n(&self, n: usize) -> (res: bool)
        requires
            self.spec_position() <= usize::MAX,
            self.spec_current() + n <= usize::MAX,
        ensures
            res == (self.spec_data().len() > 0 && self.spec_current() + n < self.spec_data().len()),
    {
        self.data.0.len() != 0 && self.start <= self.current + self.start && self.current + n
            < self.data.0.len()
    }

    /// Whether the whole view lies inside a nonempty row.
    pub fn is_valid(&self) -> (res: bool)
        requires
            self.spec_position() <= usize::MAX,
            self.spec_current() + self.spec_count() <= usize::MAX,
        ensures
            res == (self.spec_data().len() > 0 && self.spec_current() + self.spec_count()
                < self.spec_data().len()),
    {
        self.is_valid_with_n(self.count)
    }

    /// The view from `offset` elements further, of `size` elements (the
    /// rest of this view when `size` is zero or absent).
    pub fn sub_view(&self, offset: usize, size: Option<usize>) -> (res: PatternView<'a>)
        requires
            self.spec_start() + offset <= usize::MAX,
            (size is None || size == Some(0usize)) ==> offset <= self.spec_count(),
        ensures
            res.spec_data() == self.spec_data(),
            res.spec_start() == self.spec_start() + offset,
            res.spec_current() == self.spec_current(),
            res.spec_count() == match size {
                Some(k) => if k == 0 {
                    self.spec_count() - offset
                } else {
                    k as int
                },
                None => self.spec_count() - offset,
            },
    {
        let mut count = match size {
            Some(k) => k,
            None => 0,
        };
        if count == 0 {
            count = self.count - offset;
        }
        PatternView { data: self.data, start: self.start + offset, count, current: self.current }
    }

    /// Shifts the view by `n` elements; whether the row is nonempty.
    pub fn shift(&mut self, n: usize) -> (res: bool)
        requires
            old(self).spec_current() + n <= usize::MAX,
        ensures
            final(self).spec_data() == old(self).spec_data(),
            final(self).spec_start() == old(self).spec_start(),
            final(self).spec_count() == old(self).spec_count(),
            final(self).spec_current() == old(self).spec_current() + n,
            res == (old(self).spec_data().len() > 0),
    {
        self.current = self.current + n;
        self.data.0.len() != 0
    }

    /// Shifts the view by a bar and a space.
    pub fn skip_pair(&mut self) -> (res: bool)
        requires
            old(self).spec_current() + 2 <= usize::MAX,
        ensures
            final(self).spec_data() == old(self).spec_data(),
            final(self).spec_start() == old(self).spec_start(),
            final(self).spec_count() == old(self).spec_count(),
            final(self).spec_current() == old(self).spec_current() + 2,
            res == (old(self).spec_data().len() > 0),
    {
        self.shift(2)
    }

    /// Shifts the view by its own size.
    pub fn skip_symbol(&mut self) -> (res: bool)
        requires
            old(self).spec_current() + old(self).spec_count() <= usize::MAX,
        ensures
            final(self).spec_data() == old(self).spec_data(),
            final(self).spec_start() == old(self).spec_start(),
            final(self).spec_count() == old(self).spec_count(),
            final(self).spec_current() == old(self).spec_current() + old(self).spec_count(),
            res == (old(self).spec_data().len() > 0),
    {
        let n = self.count;
        self.shift(n)
    }

    /// Shifts the view by one element.
    pub fn skip_single(&mut self) -> (res: bool)
        requires
            old(self).spec_current() + 1 <= usize::MAX,
        ensures
            final(self).spec_data() == old(self).spec_data(),
            final(self).spec_start() == old(self).spec_start(),
            final(self).spec_count() == old(self).spec_count(),
            final(self).spec_current() == old(self).spec_current() + 1,
            res == (old(self).spec_data().len() > 0),
    {
        self.shift(1)
    }

    /// Extends the view to the end of the row.
    pub fn extend(&mut self)
        requires
            old(self).spec_position() <= usize::MAX,
        ensures
            final(self).spec_data() == old(self).spec_data(),
            final(self).spec_start() == old(self).spec_start(),
            final(self).spec_current() == old(self).spec_current(),
            final(self).spec_count() == if old(self).spec_position() < old(self).spec_data().len() {
                old(self).spec_data().len() - old(self).spec_position()
            } else {
                0
            },
    {
        let len = self.data.0.len();
        let at = self.current + self.start;
        self.count = if at < len {
            len - at
        } else {
            0
        };
    }

    /// The element `index` of the view: of the row itself when the view
    /// covers as many elements as the row has, else counted from the
    /// current position. The index must be inside the row.
    pub fn at(&self, index: usize) -> (res: PatternType)
        requires
            self.spec_count() == self.spec_data().len() ==> index < self.spec_data().len(),
            self.spec_count() != self.spec_data().len() ==> self.spec_position() + index < self.spec_data().len(),
        ensures
            self.spec_count() == self.spec_data().len() ==> res == self.spec_data()[index as int],
            self.spec_count() != self.spec_data().len() ==> res == self.spec_data()[self.spec_position()
                + index],
    {
        if self.count == self.data.0.len() {
            return self.data.0[index];
        }
        self.data.0[self.start + self.current + index]
    }
}

/// Walks the widths of a view.
pub struct PatternViewIterator<'a> {
    pattern_view: &'a PatternView<'a>,
    current_position: usize,
}

impl<'a> PatternViewIterator<'a> {
    /// The view walked.
    pub closed spec fn spec_view(&self) -> PatternView<'a> {
        *self.pattern_view
    }

    /// How many widths were handed out.
    pub closed spec fn spec_position(&self) -> int {
        self.current_position as int
    }

    /// The next width of the view, while there is one inside the row.
    pub fn next(&mut self) -> (res: Option<PatternType>)
        requires
            old(self).spec_view().spec_position() + old(self).spec_view().spec_count() <= usize::MAX,
        ensures
            final(self).spec_view() == old(self).spec_view(),
            old(self).spec_position() + 1 > old(self).spec_view().spec_count() ==> res == None::<u16>
                && final(self).spec_position() == old(self).spec_position(),
            old(self).spec_position() + 1 <= old(self).spec_view().spec_count() ==> final(self).spec_position()
                == old(self).spec_position() + 1 && res == (if old(self).spec_position() + old(
                self,
            ).spec_view().spec_position() < old(self).spec_view().spec_data().len() {
                Some(
                    old(self).spec_view().spec_data()[old(self).spec_position() + old(
                        self,
                    ).spec_view().spec_position()],
                )
            } else {
                None::<u16>
            }),
    {
        let view = self.pattern_view;
        if self.current_position >= view.count {
            return None;
        }
        self.current_position = self.current_position + 1;
        let spot = self.current_position - 1 + view.start + view.current;
        if spot < view.data.0.len() {
            Some(view.data.0[spot])
        } else {
            None
        }
    }
}

/// A pair of a bar and a space quantity.
#[derive(Debug, Clone, Copy)]
pub struct BarAndSpace<T> {
    bar: T,
    space: T,
}

impl<T: Copy> BarAndSpace<T> {
    /// The pair of `bar` and `space`.
    pub fn new(bar: T, space: T) -> (res: BarAndSpace<T>)
        ensures
            res.spec_bar() == bar,
            res.spec_space() == space,
    {
        BarAndSpace { bar, space }
    }

    /// The bar quantity.
    pub closed spec fn spec_bar(&self) -> T {
        self.bar
    }

    /// The space quantity.
    pub closed spec fn spec_space(&self) -> T {
        self.space
    }

    /// The bar quantity for an even index, the space quantity for an odd
    /// one: elements of a pattern alternate bar and space.
    pub fn get(&self, index: usize) -> (res: T)
        ensures
            res == if index % 2 == 0 {
                self.spec_bar()
            } else {
                self.spec_space()
            },
    {
        if index % 2 == 0 {
            self.bar
        } else {
            self.space
        }
    }
}

impl BarAndSpace<u16> {
    /// Whether neither quantity is zero.
    pub fn is_valid(&self) -> (res: bool)
        ensures
            res == (self.spec_bar() != 0 && self.spec_space() != 0),
    {
        self.bar != 0 && self.space != 0
    }
}

/// A fixed start or stop pattern of `N` widths summing to `SUM` modules;
/// `IS_SPARCE` marks patterns with zeros for wide elements.
pub struct FixedPattern<const N: usize, const SUM: usize, const IS_SPARCE: bool> {
    data: [PatternType; N],
}

impl<const N: usize, const SUM: usize, const IS_SPARCE: bool> FixedPattern<N, SUM, IS_SPARCE> {
    /// The widths of the pattern.
    pub closed spec fn spec_data(&self) -> Seq<u16> {
        self.data@
    }

    /// The pattern with the given widths.
    pub fn new(data: [PatternType; N]) -> (res: Self)
        ensures
            res.spec_data() == data@,
    {
        FixedPattern { data }
    }

    /// The pattern with a copy of the given widths.
    pub fn with_reference(data: &[PatternType; N]) -> (res: Self)
        ensures
            res.spec_data() == data@,
    {
        FixedPattern { data: *data }
    }

    /// The widths of the pattern.
    pub fn as_slice(&self) -> (res: &[PatternType])
        ensures
            res@ == self.spec_data(),
    {
        self.data.as_slice()
    }

    /// Number of widths.
    pub fn size(&self) -> (res: usize)
        ensures
            res == N,
    {
        N
    }
}

/// Expands alternating run lengths, white first, into pixel colours
/// (`true` for black).
pub open spec fn expand_runs(runs: Seq<u16>) -> Seq<bool>
    decreases runs.len(),
{
    if runs.len() == 0 {
        Seq::empty()
    } else {
        expand_runs(runs.drop_last()) + Seq::new(runs.last() as nat, |i: int| runs.len() % 2 == 0)
    }
}

/// Whether `runs` is the pattern row of the pixels `colors`: alternating
/// white and black runs that expand to the pixels, every run but the first
/// and the last nonempty, and a final white run (possibly empty); an empty
/// line gives no runs.
pub open spec fn is_pattern_row_of(runs: Seq<u16>, colors: Seq<bool>) -> bool {
    if colors.len() == 0 {
        runs.len() == 0
    } else {
        &&& runs.len() % 2 == 1
        &&& expand_runs(runs) == colors
        &&& forall|i: int| 0 < i < runs.len() - 1 ==> #[trigger] runs[i] > 0
        &&& runs[0] == 0 <==> colors[0]
        &&& runs[runs.len() - 1] == 0 <==> colors[colors.len() - 1]
    }
}

proof fn lemma_expand_push(runs: Seq<u16>, r: u16)
    ensures
        expand_runs(runs.push(r)) == expand_runs(runs) + Seq::new(r as nat, |i: int| (runs.len() + 1) % 2 == 0),
{
    assert(runs.push(r).drop_last() =~= runs);
}

proof fn lemma_expand_len(runs: Seq<u16>)
    ensures
        expand_runs(runs).len() == sum_of(runs),
    decreases runs.len(),
{
    if runs.len() > 0 {
        lemma_expand_len(runs.drop_last());
    }
}

proof fn lemma_expand_last(runs: Seq<u16>)
    requires
        runs.len() > 0,
        runs.last() > 0,
    ensures
        expand_runs(runs).len() > 0,
        expand_runs(runs).last() == (runs.len() % 2 == 0),
{
    lemma_expand_len(runs.drop_last());
    let tail = Seq::new(runs.last() as nat, |i: int| runs.len() % 2 == 0);
    assert(expand_runs(runs) == expand_runs(runs.drop_last()) + tail);
    assert(expand_runs(runs).last() == tail.last());
}

/// Alternating runs whose runs after the first are all nonempty are fixed by
/// the pixels they expand to (given the parity of their number).
proof fn lemma_runs_unique(r: Seq<u16>, s: Seq<u16>)
    requires
        r.len() % 2 == s.len() % 2,
        forall|i: int| 0 < i < r.len() ==> #[trigger] r[i] > 0,
        forall|i: int| 0 < i < s.len() ==> #[trigger] s[i] > 0,
        expand_runs(r) == expand_runs(s),
    ensures
        r == s,
    decreases r.len() + s.len(), 1int,
{
    lemma_expand_len(r);
    lemma_expand_len(s);
    if r.len() == 0 || s.len() == 0 {
        if r.len() > 0 {
            lemma_runs_empty(r);
        }
        if s.len() > 0 {
            lemma_runs_empty(s);
        }
    } else {
        lemma_runs_unique_step(r, s);
    }
}

proof fn lemma_runs_unique_step(r: Seq<u16>, s: Seq<u16>)
    requires
        r.len() > 0,
        s.len() > 0,
        r.len() % 2 == s.len() % 2,
        forall|i: int| 0 < i < r.len() ==> #[trigger] r[i] > 0,
        forall|i: int| 0 < i < s.len() ==> #[trigger] s[i] > 0,
        expand_runs(r) == expand_runs(s),
    ensures
        r == s,
    decreases r.len() + s.len(), 0int,
{
    let rp = r.drop_last();
    let sp = s.drop_last();
    let a = r.last();
    let b = s.last();
    lemma_expand_len(rp);
    lemma_expand_len(sp);
    let er = expand_runs(r);
    assert(er == expand_runs(rp) + Seq::new(a as nat, |i: int| r.len() % 2 == 0));
    assert(expand_runs(s) == expand_runs(sp) + Seq::new(b as nat, |i: int| s.len() % 2 == 0));
    if a == b {
        assert(expand_runs(rp) =~= er.subrange(0, er.len() - a));
        assert(expand_runs(sp) =~= er.subrange(0, er.len() - b));
        lemma_runs_unique(rp, sp);
        assert(r =~= rp.push(a));
        assert(s =~= sp.push(b));
    } else if a < b {
        lemma_runs_mismatch(rp, r.len() % 2 == 0, a, b, er);
    } else {
        lemma_runs_mismatch(sp, s.len() % 2 == 0, b, a, er);
    }
}

/// Runs with nonempty runs after the first that expand to nothing are a
/// single empty run.
proof fn lemma_runs_empty(r: Seq<u16>)
    requires
        r.len() > 0,
        forall|i: int| 0 < i < r.len() ==> #[trigger] r[i] > 0,
        expand_runs(r).len() == 0,
    ensures
        r.len() == 1 && r[0] == 0,
{
    lemma_expand_len(r);
    lemma_expand_len(r.drop_last());
    if r.len() > 1 {
        assert(r.last() > 0);
    }
}

/// Where runs end in a run of `a` pixels of one colour and the pixels they
/// expand to end in `b` pixels of that colour, `a` is at least `b`: the pixel
/// before the last run is of the other colour.
proof fn lemma_runs_mismatch(rp: Seq<u16>, color: bool, a: u16, b: u16, pixels: Seq<bool>)
    requires
        (rp.len() + 1) % 2 == 0 <==> color,
        forall|i: int| 0 < i < rp.len() ==> #[trigger] rp[i] > 0,
        pixels == expand_runs(rp) + Seq::new(a as nat, |i: int| color),
        pixels.len() >= b,
        forall|i: int| pixels.len() - b <= i < pixels.len() ==> #[trigger] pixels[i] == color,
    ensures
        a >= b,
{
    lemma_expand_len(rp);
    if a >= b {
    } else if rp.len() == 0 || (rp.len() == 1 && rp[0] == 0) {
        if rp.len() == 1 {
            lemma_expand_len(rp.drop_last());
            assert(rp.drop_last() =~= Seq::<u16>::empty());
        }
        assert(expand_runs(rp).len() == 0);
    } else {
        assert(rp.last() > 0);
        lemma_expand_last(rp);
        let k = expand_runs(rp).len() - 1;
        assert(pixels[k] == expand_runs(rp).last());
        assert(pixels.len() - b <= k);
    }
}

/// A line of pixels has one pattern row: what `get_pattern_row` computes
/// from a row and what `get_pattern_row_tp` computes from the same row (or
/// column) of a matrix are the same runs.
pub proof fn lemma_pattern_row_unique(r: Seq<u16>, s: Seq<u16>, colors: Seq<bool>)
    requires
        is_pattern_row_of(r, colors),
        is_pattern_row_of(s, colors),
    ensures
        r == s,
{
    if colors.len() > 0 {
        let a = r.last();
        let b = s.last();
        let rp = r.drop_last();
        let sp = s.drop_last();
        lemma_expand_len(r);
        assert(expand_runs(r) == expand_runs(rp) + Seq::new(a as nat, |i: int| r.len() % 2 == 0));
        assert(expand_runs(s) == expand_runs(sp) + Seq::new(b as nat, |i: int| s.len() % 2 == 0));
        assert(forall|i: int| 0 < i < rp.len() ==> #[trigger] rp[i] == r[i]);
        assert(forall|i: int| 0 < i < sp.len() ==> #[trigger] sp[i] == s[i]);
        if a == b {
            lemma_expand_len(rp);
            lemma_expand_len(sp);
            assert(expand_runs(rp) =~= colors.subrange(0, colors.len() - a));
            assert(expand_runs(sp) =~= colors.subrange(0, colors.len() - b));
            lemma_runs_unique(rp, sp);
            assert(r =~= rp.push(a));
            assert(s =~= sp.push(b));
        } else if a < b {
            lemma_runs_mismatch(rp, false, a, b, colors);
        } else {
            lemma_runs_mismatch(sp, false, b, a, colors);
        }
    }
}

/// Row `r` of a matrix, or column `r` when `transpose`, as pixel colours.
pub open spec fn matrix_line(matrix: BitMatrix, r: int, transpose: bool) -> Seq<bool> {
    Seq::new(
        (if transpose { matrix.spec_height() } else { matrix.spec_width() }) as nat,
        |k: int| if transpose { matrix.spec_get(r, k) } else { matrix.spec_get(k, r) },
    )
}

/// What `get_pattern_row_tp` computes from row (or column) `r` of a matrix
/// is what `get_pattern_row` computes from the same line given as pixels
/// (nonzero for a set module).
pub proof fn lemma_pattern_row_tp_matches(
    tp_runs: Seq<u16>,
    plain_runs: Seq<u16>,
    matrix: BitMatrix,
    r: int,
    transpose: bool,
    b_row: Seq<u16>,
)
    requires
        b_row.len() == matrix_line(matrix, r, transpose).len(),
        forall|k: int| 0 <= k < b_row.len() ==> (#[trigger] b_row[k] != 0) == matrix_line(matrix, r, transpose)[k],
        is_pattern_row_of(tp_runs, matrix_line(matrix, r, transpose)),
        is_pattern_row_of(plain_runs, b_row.map_values(|v: u16| v != 0)),
    ensures
        tp_runs == plain_runs,
{
    assert(b_row.map_values(|v: u16| v != 0) =~= matrix_line(matrix, r, transpose));
    lemma_pattern_row_unique(tp_runs, plain_runs, matrix_line(matrix, r, transpose));
}

/// Computes the pattern row of a line of pixels (nonzero means black) into
/// `p_row`: the widths of alternating white and black runs, starting with a
/// white run (empty when the line starts black) and ending with a white run
/// (empty when it ends black).
pub fn get_pattern_row(b_row: &[PatternType], p_row: &mut PatternRow)
    requires
        b_row@.len() <= u16::MAX,
    ensures
        is_pattern_row_of(final(p_row).0@, pixel_colors(b_row@)),
        forall|runs: Seq<u16>| #[trigger] is_pattern_row_of(runs, pixel_colors(b_row@)) ==> runs == final(p_row).0@,
{
    fill_pattern_row(b_row, p_row);
    proof {
        assert forall|runs: Seq<u16>| #[trigger] is_pattern_row_of(runs, pixel_colors(b_row@)) implies runs
            == p_row.0@ by {
            lemma_pattern_row_unique(runs, p_row.0@, pixel_colors(b_row@));
        }
    }
}

/// The colours of pixels given as values: nonzero is black.
pub open spec fn pixel_colors(b_row: Seq<u16>) -> Seq<bool> {
    b_row.map_values(|v: u16| v != 0)
}

fn fill_pattern_row(b_row: &[PatternType], p_row: &mut PatternRow)
    requires
        b_row@.len() <= u16::MAX,
    ensures
        is_pattern_row_of(final(p_row).0@, b_row@.map_values(|v: u16| v != 0)),
{
    let ghost colors = b_row@.map_values(|v: u16| v != 0);
    p_row.0 = Vec::new();
    let n = b_row.len();
    if n == 0 {
        return;
    }
    let first_black = b_row[0] != 0;
    if first_black {
        p_row.0.push(0);
    }
    let mut current_black = first_black;
    let mut count: u16 = 0;
    let mut i: usize = 0;
    proof {
        if first_black {
            assert(p_row.0@ =~= Seq::<u16>::empty().push(0u16));
            lemma_expand_push(Seq::<u16>::empty(), 0u16);
            assert(Seq::new(0, |i: int| (0 + 1) % 2 == 0) =~= Seq::<bool>::empty());
            assert(expand_runs(Seq::<u16>::empty()) =~= Seq::<bool>::empty());
        } else {
            assert(p_row.0@ =~= Seq::<u16>::empty());
        }
        assert(expand_runs(p_row.0@) =~= Seq::<bool>::empty());
    }
    while i < n
        invariant
            n == b_row@.len(),
            n <= u16::MAX,
            n > 0,
            colors == b_row@.map_values(|v: u16| v != 0),
            first_black == colors[0],
            i <= n,
            count <= i,
            i > 0 ==> count > 0,
            i == 0 ==> count == 0 && current_black == first_black,
            p_row.0@.len() >= 1 || !first_black,
            p_row.0@.len() % 2 == (if current_black { 1int } else { 0int }),
            first_black ==> p_row.0@[0] == 0,
            !first_black && p_row.0@.len() > 0 ==> p_row.0@[0] > 0,
            forall|k: int| 0 < k < p_row.0@.len() ==> #[trigger] p_row.0@[k] > 0,
            expand_runs(p_row.0@) + Seq::new(count as nat, |j: int| current_black) == colors.take(i as int),
            i > 0 ==> current_black == colors[i - 1],
        decreases n - i,
    {
        let this_black = b_row[i] != 0;
        let ghost before = p_row.0@;
        if current_black != this_black {
            proof {
                lemma_expand_push(before, count);
                assert(Seq::new(count as nat, |j: int| (before.len() + 1) % 2 == 0) =~= Seq::new(
                    count as nat,
                    |j: int| current_black,
                ));
            }
            p_row.0.push(count);
            count = 0;
            current_black = this_black;
        }
        proof {
            assert(colors[i as int] == this_black);
            assert(colors.take(i as int + 1) =~= colors.take(i as int).push(this_black));
            assert(Seq::new((count + 1) as nat, |j: int| current_black) =~= Seq::new(
                count as nat,
                |j: int| current_black,
            ).push(current_black));
        }
        count = count + 1;
        i = i + 1;
    }
    let ghost before_tail = p_row.0@;
    proof {
        lemma_expand_push(before_tail, count);
        assert(Seq::new(count as nat, |j: int| (before_tail.len() + 1) % 2 == 0) =~= Seq::new(
            count as nat,
            |j: int| current_black,
        ));
        assert(colors.take(n as int) =~= colors);
    }
    p_row.0.push(count);
    if current_black {
        let ghost with_count = p_row.0@;
        p_row.0.push(0);
        proof {
            lemma_expand_push(with_count, 0);
            assert(Seq::new(0, |j: int| (with_count.len() + 1) % 2 == 0) =~= Seq::<bool>::empty());
            assert(expand_runs(p_row.0@) =~= expand_runs(with_count));
        }
    }
}

/// The pattern row of row `r` (or, transposed, column `r`) of a matrix.
pub fn get_pattern_row_tp(matrix: &BitMatrix, r: u32, pr: &mut PatternRow, transpose: bool)
    requires
        (if transpose { matrix.spec_height() } else { matrix.spec_width() }) <= u16::MAX,
    ensures
        is_pattern_row_of(final(pr).0@, matrix_line(*matrix, r as int, transpose)),
        forall|runs: Seq<u16>|
            #[trigger] is_pattern_row_of(runs, matrix_line(*matrix, r as int, transpose)) ==> runs == final(pr).0@,
{
    let n: u32 = if transpose {
        matrix.height()
    } else {
        matrix.width()
    };
    let ghost line = Seq::new(
        n as nat,
        |k: int| if transpose { matrix.spec_get(r as int, k) } else { matrix.spec_get(k, r as int) },
    );
    let mut pixels: Vec<u16> = Vec::new();
    let mut k: u32 = 0;
    while k < n
        invariant
            k <= n,
            n <= u16::MAX,
            n == (if transpose { matrix.spec_height() } else { matrix.spec_width() }),
            line == Seq::new(
                n as nat,
                |k: int| if transpose { matrix.spec_get(r as int, k) } else { matrix.spec_get(k, r as int) },
            ),
            pixels@.len() == k,
            forall|j: int| 0 <= j < k ==> (#[trigger] pixels@[j] != 0) == line[j],
        decreases n - k,
    {
        let black = if transpose {
            matrix.get(r, k)
        } else {
            matrix.get(k, r)
        };
        pixels.push(if black {
            1
        } else {
            0
        });
        k = k + 1;
    }
    get_pattern_row(pixels.as_slice(), pr);
    proof {
        assert(pixels@.map_values(|v: u16| v != 0) =~= line);
        assert forall|runs: Seq<u16>|
            #[trigger] is_pattern_row_of(runs, matrix_line(*matrix, r as int, transpose)) implies runs == pr.0@ by {
            lemma_pattern_row_unique(runs, pr.0@, line);
        }
    }
}

} // verus!
