use vstd::prelude::*;

verus! {

/// A logical coordinate: a sequence of counters compared lexicographically,
/// plus a least element (`Bottom`) and a greatest one (`Top`).
#[derive(Debug, Clone, PartialEq, Eq, Hash)]
pub enum Timestamp {
    Time(Vec<u64>),
    Top,
    Bottom,
}

/// The mathematical value of a [`Timestamp`].
pub enum TimeView {
    Bottom,
    Time(Seq<u64>),
    Top,
}

impl View for Timestamp {
    type V = TimeView;

    open spec fn view(&self) -> TimeView {
        match self {
            Timestamp::Time(v) => TimeView::Time(v@),
            Timestamp::Top => TimeView::Top,
            Timestamp::Bottom => TimeView::Bottom,
        }
    }
}

/// Lexicographic order on counter sequences; a proper prefix comes first.
pub open spec fn seq_lt(a: Seq<u64>, b: Seq<u64>) -> bool
    decreases a.len(),
{
    if b.len() == 0 {
        false
    } else if a.len() == 0 {
        true
    } else if a[0] != b[0] {
        a[0] < b[0]
    } else {
        seq_lt(a.drop_first(), b.drop_first())
    }
}

impl TimeView {
    pub open spec fn lt(self, o: TimeView) -> bool {
        match (self, o) {
            (TimeView::Bottom, TimeView::Bottom) => false,
            (TimeView::Bottom, _) => true,
            (_, TimeView::Bottom) => false,
            (TimeView::Top, _) => false,
            (_, TimeView::Top) => true,
            (TimeView::Time(a), TimeView::Time(b)) => seq_lt(a, b),
        }
    }

    pub open spec fn le(self, o: TimeView) -> bool {
        self == o || self.lt(o)
    }
}

pub proof fn lemma_seq_lt_irreflexive(a: Seq<u64>)
    ensures
        !seq_lt(a, a),
    decreases a.len(),
{
    if a.len() > 0 {
        lemma_seq_lt_irreflexive(a.drop_first());
    }
}

pub proof fn lemma_seq_lt_transitive(a: Seq<u64>, b: Seq<u64>, c: Seq<u64>)
    requires
        seq_lt(a, b),
        seq_lt(b, c),
    ensures
        seq_lt(a, c),
    decreases a.len(),
{
    if a.len() > 0 && b.len() > 0 && c.len() > 0 && a[0] == b[0] && b[0] == c[0] {
        lemma_seq_lt_transitive(a.drop_first(), b.drop_first(), c.drop_first());
    }
}

pub proof fn lemma_seq_lt_total(a: Seq<u64>, b: Seq<u64>)
    ensures
        a =~= b || seq_lt(a, b) || seq_lt(b, a),
    decreases a.len(),
{
    if a.len() > 0 && b.len() > 0 && a[0] == b[0] {
        lemma_seq_lt_total(a.drop_first(), b.drop_first());
        if a.drop_first() =~= b.drop_first() {
            assert(a =~= seq![a[0]] + a.drop_first());
            assert(b =~= seq![b[0]] + b.drop_first());
        }
    }
}

pub proof fn lemma_seq_lt_asymmetric(a: Seq<u64>, b: Seq<u64>)
    requires
        seq_lt(a, b),
    ensures
        !seq_lt(b, a),
{
    if seq_lt(b, a) {
        lemma_seq_lt_transitive(a, b, a);
        lemma_seq_lt_irreflexive(a);
    }
}

/// No timestamp precedes itself.
pub broadcast proof fn lemma_lt_irreflexive(a: TimeView)
    ensures
        !#[trigger] a.lt(a),
{
    if let TimeView::Time(s) = a {
        lemma_seq_lt_irreflexive(s);
    }
}

/// The order on timestamps is transitive.
pub broadcast proof fn lemma_lt_transitive(a: TimeView, b: TimeView, c: TimeView)
    requires
        #[trigger] a.lt(b),
        #[trigger] b.lt(c),
    ensures
        a.lt(c),
{
    if let (TimeView::Time(x), TimeView::Time(y), TimeView::Time(z)) = (a, b, c) {
        lemma_seq_lt_transitive(x, y, z);
    }
}

/// Any two distinct timestamps are ordered one way or the other.
pub broadcast proof fn lemma_lt_total(a: TimeView, b: TimeView)
    ensures
        a == b || #[trigger] a.lt(b) || b.lt(a),
{
    if let (TimeView::Time(x), TimeView::Time(y)) = (a, b) {
        lemma_seq_lt_total(x, y);
    }
}

pub broadcast proof fn lemma_lt_asymmetric(a: TimeView, b: TimeView)
    requires
        #[trigger] a.lt(b),
    ensures
        !b.lt(a),
{
    if let (TimeView::Time(x), TimeView::Time(y)) = (a, b) {
        lemma_seq_lt_asymmetric(x, y);
    }
}

pub broadcast group group_time_order {
    lemma_lt_irreflexive,
    lemma_lt_transitive,
    lemma_lt_total,
    lemma_lt_asymmetric,
}

fn counters_lt(a: &Vec<u64>, b: &Vec<u64>) -> (r: bool)
    ensures
        r == seq_lt(a@, b@),
{
    let mut i: usize = 0;
    assert(a@.subrange(0, a@.len() as int) =~= a@);
    assert(b@.subrange(0, b@.len() as int) =~= b@);
    while i < a.len() && i < b.len()
        invariant
            i <= a@.len(),
            i <= b@.len(),
            seq_lt(a@, b@) == seq_lt(a@.subrange(i as int, a@.len() as int), b@.subrange(i as int, b@.len() as int)),
        decreases a@.len() - i,
    {
        if a[i] != b[i] {
            return a[i] < b[i];
        }
        let ghost sa = a@.subrange(i as int, a@.len() as int);
        let ghost sb = b@.subrange(i as int, b@.len() as int);
        assert(sa.drop_first() =~= a@.subrange(i + 1, a@.len() as int));
        assert(sb.drop_first() =~= b@.subrange(i + 1, b@.len() as int));
        i = i + 1;
    }
    i < b.len()
}

fn copy_counters(a: &Vec<u64>) -> (r: Vec<u64>)
    ensures
        r@ == a@,
{
    let mut r: Vec<u64> = Vec::new();
    let mut i: usize = 0;
    while i < a.len()
        invariant
            i <= a@.len(),
            r@ == a@.subrange(0, i as int),
        decreases a@.len() - i,
    {
        r.push(a[i]);
        i = i + 1;
    }
    assert(r@ =~= a@);
    r
}

impl Timestamp {
    /// A timestamp made of the given counters.
    pub fn new(time: Vec<u64>) -> (r: Timestamp)
        ensures
            r@ == TimeView::Time(time@),
    {
        Timestamp::Time(time)
    }

    pub fn bottom() -> (r: Timestamp)
        ensures
            r@ == TimeView::Bottom,
    {
        Timestamp::Bottom
    }

    pub fn top() -> (r: Timestamp)
        ensures
            r@ == TimeView::Top,
    {
        Timestamp::Top
    }

    pub fn is_top(&self) -> (r: bool)
        ensures
            r == (self@ == TimeView::Top),
    {
        match self {
            Timestamp::Top => true,
            _ => false,
        }
    }

    /// A fresh timestamp with the same value.
    pub fn copied(&self) -> (r: Timestamp)
        ensures
            r@ == self@,
    {
        match self {
            Timestamp::Time(v) => Timestamp::Time(copy_counters(v)),
            Timestamp::Top => Timestamp::Top,
            Timestamp::Bottom => Timestamp::Bottom,
        }
    }

    /// Whether `self` strictly precedes `other`.
    pub fn precedes(&self, other: &Timestamp) -> (r: bool)
        ensures
            r == self@.lt(other@),
    {
        match (self, other) {
            (Timestamp::Bottom, Timestamp::Bottom) => false,
            (Timestamp::Bottom, _) => true,
            (_, Timestamp::Bottom) => false,
            (Timestamp::Top, _) => false,
            (_, Timestamp::Top) => true,
            (Timestamp::Time(a), Timestamp::Time(b)) => counters_lt(a, b),
        }
    }

    /// Whether `self` and `other` denote the same logical time.
    pub fn same_as(&self, other: &Timestamp) -> (r: bool)
        ensures
            r == (self@ == other@),
    {
        proof {
            broadcast use group_time_order;
        }
        !self.precedes(other) && !other.precedes(self)
    }
}

} // verus!
