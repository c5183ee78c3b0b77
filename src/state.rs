use vstd::prelude::*;

use crate::keys::{
    count_le, count_lt, find, find_key, has_key, index_of, insert_absent, keys_of, lemma_count_le,
    lemma_count_lt, lower_bound, sorted, splits_le, splits_lt, stamps, times_of, upper_bound,
};
use crate::timestamp::{group_time_order, TimeView, Timestamp};

verus! {

broadcast use group_time_order;

/// What an operator's state must offer.
pub trait State: 'static + Clone {}

impl<T: 'static + Clone> State for T {}

/// What kind of code is running, which decides what the state allows.
#[derive(Debug, Clone, Copy, PartialEq, Eq, Structural)]
pub enum AccessContext {
    /// The operator is being built: configuration only.
    Operator,
    /// A regular (non-watermark) callback: appending messages only.
    Callback,
    /// A watermark callback: reading messages, reading and writing states.
    WatermarkCallback,
}

/// The operations of [`TimeVersionedState`] that are gated by the access context.
#[derive(Debug, Clone, Copy, PartialEq, Eq, Structural)]
pub enum StateOperation {
    SetHistorySize,
    SetInitialState,
    Append,
    GetCurrentMessages,
    GetState,
    GetCurrentState,
    GetCurrentStateMut,
    IterStates,
}

/// An operation was attempted in a context that does not permit it.
#[derive(Debug, Clone, Copy, PartialEq, Eq, Structural)]
pub struct AccessError {
    pub operation: StateOperation,
    pub context: AccessContext,
}

/// The access table: which operation each context permits.
pub open spec fn permitted(op: StateOperation, ctx: AccessContext) -> bool {
    match op {
        StateOperation::SetHistorySize | StateOperation::SetInitialState => ctx == AccessContext::Operator,
        StateOperation::Append => ctx == AccessContext::Callback,
        _ => ctx == AccessContext::WatermarkCallback,
    }
}

/// The result of a gated operation that is refused.
pub open spec fn refusal<R>(op: StateOperation, ctx: AccessContext) -> Result<R, AccessError> {
    Err(AccessError { operation: op, context: ctx })
}

/// How many state entries a watermark callback at `current` may look back over.
pub open spec fn in_window(ks: Seq<TimeView>, t: TimeView, current: TimeView, history_size: nat) -> bool {
    &&& t.le(current)
    &&& has_key(ks, t)
    &&& count_lt(ks, current) - count_lt(ks, t) <= history_size
}

/// How many of the oldest state entries `close_time(t)` releases.
pub open spec fn states_released(ks: Seq<TimeView>, t: TimeView, history_size: nat) -> int {
    let c = count_le(ks, t);
    if history_size == 0 {
        c
    } else if c > history_size {
        c - history_size
    } else {
        0
    }
}

proof fn lemma_update_state<S>(a: Seq<(Timestamp, S)>, p: int)
    requires
        0 <= p < a.len(),
    ensures
        forall|x: S| (#[trigger] a.update(p, (a[p].0, x))).map_values(|e: (Timestamp, S)| (e.0@, e.1))
            == a.map_values(|e: (Timestamp, S)| (e.0@, e.1)).update(p, (a[p].0@, x)),
        forall|x: S| stamps(#[trigger] a.update(p, (a[p].0, x))) == stamps(a),
{
    assert forall|x: S| (#[trigger] a.update(p, (a[p].0, x))).map_values(|e: (Timestamp, S)| (e.0@, e.1))
        == a.map_values(|e: (Timestamp, S)| (e.0@, e.1)).update(p, (a[p].0@, x)) by {
        assert(a.update(p, (a[p].0, x)).map_values(|e: (Timestamp, S)| (e.0@, e.1))
            =~= a.map_values(|e: (Timestamp, S)| (e.0@, e.1)).update(p, (a[p].0@, x)));
    }
    assert forall|x: S| stamps(#[trigger] a.update(p, (a[p].0, x))) == stamps(a) by {
        assert(stamps(a.update(p, (a[p].0, x))) =~= stamps(a));
    }
}

/// A per-operator store that pairs each logical time with the messages received at it
/// and the state snapshot produced at it, gated by the current access context.
pub struct TimeVersionedState<S: State + Default, T> {
    current_time: Timestamp,
    history_size: usize,
    access_context: AccessContext,
    message_history: Vec<(Timestamp, Vec<T>)>,
    state_history: Vec<(Timestamp, S)>,
}

impl<S: State + Default, T> TimeVersionedState<S, T> {
    /// The message history, oldest time first.
    pub closed spec fn messages(&self) -> Seq<(TimeView, Seq<T>)> {
        self.message_history@.map_values(|e: (Timestamp, Vec<T>)| (e.0@, e.1@))
    }

    /// The state history, oldest time first.
    pub closed spec fn states(&self) -> Seq<(TimeView, S)> {
        self.state_history@.map_values(|e: (Timestamp, S)| (e.0@, e.1))
    }

    pub closed spec fn current(&self) -> TimeView {
        self.current_time@
    }

    pub closed spec fn context(&self) -> AccessContext {
        self.access_context
    }

    pub closed spec fn retained(&self) -> nat {
        self.history_size as nat
    }

    /// Both histories are ordered by strictly increasing time.
    pub closed spec fn wf(&self) -> bool {
        &&& sorted(stamps(self.message_history@))
        &&& sorted(stamps(self.state_history@))
    }

    proof fn lemma_views(&self)
        ensures
            keys_of(self.messages()) == stamps(self.message_history@),
            keys_of(self.states()) == stamps(self.state_history@),
            self.messages().len() == self.message_history@.len(),
            self.states().len() == self.state_history@.len(),
    {
        assert(keys_of(self.messages()) =~= stamps(self.message_history@));
        assert(keys_of(self.states()) =~= stamps(self.state_history@));
    }

    /// In a well-formed store both histories are in strictly increasing time order, so
    /// `count_le`, `count_lt` and `index_of` over their keys are counts and positions.
    pub proof fn lemma_histories_sorted(&self)
        requires
            self.wf(),
        ensures
            sorted(keys_of(self.messages())),
            sorted(keys_of(self.states())),
    {
        self.lemma_views();
    }

    pub fn new() -> (r: Self)
        ensures
            r.wf(),
            r.retained() == 0,
            r.context() == AccessContext::Operator,
            r.current() == TimeView::Bottom,
            r.messages().len() == 0,
            r.states().len() == 0,
    {
        Self::new_with_history_size(0)
    }

    pub fn new_with_history_size(history_size: usize) -> (r: Self)
        ensures
            r.wf(),
            r.retained() == history_size,
            r.context() == AccessContext::Operator,
            r.current() == TimeView::Bottom,
            r.messages().len() == 0,
            r.states().len() == 0,
    {
        Self {
            current_time: Timestamp::bottom(),
            history_size,
            access_context: AccessContext::Operator,
            message_history: Vec::new(),
            state_history: Vec::new(),
        }
    }

    /// Switches the access rules to those of the code about to run.
    pub fn set_access_context(&mut self, access_context: AccessContext)
        ensures
            final(self).context() == access_context,
            final(self).wf() == old(self).wf(),
            final(self).messages() == old(self).messages(),
            final(self).states() == old(self).states(),
            final(self).current() == old(self).current(),
            final(self).retained() == old(self).retained(),
    {
        self.access_context = access_context;
    }

    pub fn access_context(&self) -> (r: AccessContext)
        ensures
            r == self.context(),
    {
        self.access_context
    }

    pub fn history_size(&self) -> (r: usize)
        ensures
            r == self.retained(),
    {
        self.history_size
    }

    fn check_access(&self, op: StateOperation) -> (r: Result<(), AccessError>)
        ensures
            r is Ok <==> permitted(op, self.context()),
            r is Err ==> r == refusal::<()>(op, self.context()),
    {
        let allowed = match op {
            StateOperation::SetHistorySize | StateOperation::SetInitialState => match self.access_context {
                AccessContext::Operator => true,
                _ => false,
            },
            StateOperation::Append => match self.access_context {
                AccessContext::Callback => true,
                _ => false,
            },
            _ => match self.access_context {
                AccessContext::WatermarkCallback => true,
                _ => false,
            },
        };
        if allowed {
            Ok(())
        } else {
            Err(AccessError { operation: op, context: self.access_context })
        }
    }

    /// Makes `t` the current time and makes sure that both histories hold an entry
    /// for it: no messages, and a default state.
    pub fn set_current_time(&mut self, t: Timestamp)
        requires
            old(self).wf(),
        ensures
            final(self).wf(),
            final(self).current() == t@,
            final(self).context() == old(self).context(),
            final(self).retained() == old(self).retained(),
            has_key(keys_of(final(self).messages()), t@),
            has_key(keys_of(final(self).states()), t@),
            has_key(keys_of(old(self).messages()), t@) ==> final(self).messages() == old(self).messages(),
            !has_key(keys_of(old(self).messages()), t@) ==> final(self).messages() == old(self).messages().insert(
                count_lt(keys_of(old(self).messages()), t@),
                (t@, Seq::<T>::empty()),
            ),
            has_key(keys_of(old(self).states()), t@) ==> final(self).states() == old(self).states(),
            !has_key(keys_of(old(self).states()), t@) ==> {
                let p = count_lt(keys_of(old(self).states()), t@);
                &&& final(self).states() == old(self).states().insert(p, (t@, final(self).states()[p].1))
                &&& call_ensures(S::default, (), final(self).states()[p].1)
            },
    {
        proof {
            self.lemma_views();
        }
        let ghost old_msgs = self.message_history@;
        let ghost old_states = self.state_history@;
        insert_absent(&mut self.message_history, &t, Vec::new());
        let d = S::default();
        insert_absent(&mut self.state_history, &t, d);
        self.current_time = t;
        proof {
            self.lemma_views();
            let km = stamps(old_msgs);
            let ks = stamps(old_states);
            if has_key(km, t@) {
                assert(self.messages() =~= old_msgs.map_values(|e: (Timestamp, Vec<T>)| (e.0@, e.1@)));
            } else {
                let p = count_lt(km, t@);
                assert(self.messages() =~= old_msgs.map_values(|e: (Timestamp, Vec<T>)| (e.0@, e.1@)).insert(p, (t@, Seq::<T>::empty())));
                assert(stamps(self.message_history@)[p] == t@);
            }
            if has_key(ks, t@) {
                assert(self.states() =~= old_states.map_values(|e: (Timestamp, S)| (e.0@, e.1)));
            } else {
                let p = count_lt(ks, t@);
                assert(self.states() =~= old_states.map_values(|e: (Timestamp, S)| (e.0@, e.1)).insert(p, (t@, self.states()[p].1)));
                assert(stamps(self.state_history@)[p] == t@);
            }
        }
    }

    /// Releases what is no longer needed once the watermark callback for `t` has returned:
    /// every message entry at or before `t`, and every state entry at or before `t` but the
    /// `history_size` most recent of them (none of them when `history_size` is zero).
    pub fn close_time(&mut self, t: &Timestamp)
        requires
            old(self).wf(),
        ensures
            final(self).wf(),
            final(self).current() == old(self).current(),
            final(self).context() == old(self).context(),
            final(self).retained() == old(self).retained(),
            final(self).messages() == old(self).messages().subrange(
                count_le(keys_of(old(self).messages()), t@),
                old(self).messages().len() as int,
            ),
            final(self).states() == old(self).states().subrange(
                states_released(keys_of(old(self).states()), t@, old(self).retained()),
                old(self).states().len() as int,
            ),
            forall|i: int| 0 <= i < final(self).messages().len() ==> t@.lt(#[trigger] final(self).messages()[i].0),
            count_le(keys_of(final(self).states()), t@) <= if old(self).retained() == 0 { 1 } else { old(self).retained() },
            old(self).retained() > 0 ==> count_le(keys_of(final(self).states()), t@) == if count_le(keys_of(old(self).states()), t@) < old(self).retained() {
                count_le(keys_of(old(self).states()), t@)
            } else {
                old(self).retained() as int
            },
    {
        proof {
            self.lemma_views();
        }
        let ghost old_msgs = self.message_history@;
        let ghost old_states = self.state_history@;
        let k = upper_bound(&self.message_history, t);
        self.message_history = self.message_history.split_off(k);
        let c = upper_bound(&self.state_history, t);
        let d = if self.history_size == 0 {
            c
        } else if c > self.history_size {
            c - self.history_size
        } else {
            0
        };
        self.state_history = self.state_history.split_off(d);
        proof {
            let km = stamps(old_msgs);
            let ks = stamps(old_states);
            lemma_count_le(km, t@, k as int);
            lemma_count_le(ks, t@, c as int);
            assert(stamps(self.message_history@) =~= km.subrange(k as int, km.len() as int));
            assert(stamps(self.state_history@) =~= ks.subrange(d as int, ks.len() as int));
            assert(self.messages() =~= old_msgs.map_values(|e: (Timestamp, Vec<T>)| (e.0@, e.1@)).subrange(k as int, km.len() as int));
            assert(self.states() =~= old_states.map_values(|e: (Timestamp, S)| (e.0@, e.1)).subrange(d as int, ks.len() as int));
            self.lemma_views();
            let nks = stamps(self.state_history@);
            assert(splits_le(nks, t@, c - d));
            lemma_count_le(nks, t@, c - d);
            assert forall|i: int| 0 <= i < self.messages().len() implies t@.lt(#[trigger] self.messages()[i].0) by {
                assert(self.messages()[i].0 == km[i + k]);
            }
        }
    }

    /// Sets the number of past states that stay addressable. Operator construction only.
    pub fn set_history_size(&mut self, history_size: usize) -> (r: Result<(), AccessError>)
        requires
            old(self).wf(),
        ensures
            r is Ok <==> permitted(StateOperation::SetHistorySize, old(self).context()),
            r is Err ==> r == refusal::<()>(StateOperation::SetHistorySize, old(self).context()) && *final(self) == *old(self),
            r is Ok ==> final(self).retained() == history_size,
            final(self).wf(),
            final(self).messages() == old(self).messages(),
            final(self).states() == old(self).states(),
            final(self).current() == old(self).current(),
            final(self).context() == old(self).context(),
    {
        match self.check_access(StateOperation::SetHistorySize) {
            Err(e) => Err(e),
            Ok(()) => {
                self.history_size = history_size;
                Ok(())
            },
        }
    }

    /// Sets the state stored at the bottom timestamp. Operator construction only.
    pub fn set_initial_state(&mut self, initial_state: S) -> (r: Result<(), AccessError>)
        requires
            old(self).wf(),
        ensures
            r is Ok <==> permitted(StateOperation::SetInitialState, old(self).context()),
            r is Err ==> r == refusal::<()>(StateOperation::SetInitialState, old(self).context()) && *final(self) == *old(self),
            r is Ok && has_key(keys_of(old(self).states()), TimeView::Bottom) ==> final(self).states() == old(self).states().update(0, (TimeView::Bottom, initial_state)),
            r is Ok && !has_key(keys_of(old(self).states()), TimeView::Bottom) ==> final(self).states() == old(self).states().insert(0, (TimeView::Bottom, initial_state)),
            final(self).wf(),
            final(self).messages() == old(self).messages(),
            final(self).current() == old(self).current(),
            final(self).context() == old(self).context(),
            final(self).retained() == old(self).retained(),
    {
        match self.check_access(StateOperation::SetInitialState) {
            Err(e) => Err(e),
            Ok(()) => {
                proof {
                    self.lemma_views();
                }
                let ghost old_states = self.state_history@;
                let ghost ks = stamps(old_states);
                let at_bottom = self.state_history.len() > 0 && match self.state_history[0].0 {
                    Timestamp::Bottom => true,
                    _ => false,
                };
                assert(at_bottom == has_key(ks, TimeView::Bottom)) by {
                    if has_key(ks, TimeView::Bottom) {
                        let i = choose|i: int| 0 <= i < ks.len() && ks[i] == TimeView::Bottom;
                        if i > 0 {
                            assert(ks[0].lt(ks[i]));
                        }
                    }
                }
                if at_bottom {
                    let _ = self.state_history.remove(0);
                }
                self.state_history.insert(0, (Timestamp::bottom(), initial_state));
                proof {
                    let nks = stamps(self.state_history@);
                    if at_bottom {
                        assert(nks =~= ks);
                        assert(self.states() =~= old_states.map_values(|e: (Timestamp, S)| (e.0@, e.1)).update(0, (TimeView::Bottom, initial_state)));
                    } else {
                        assert(nks =~= ks.insert(0, TimeView::Bottom));
                        assert forall|i: int, j: int| 0 <= i < j < nks.len() implies (#[trigger] nks[i]).lt(#[trigger] nks[j]) by {
                            if i > 0 {
                                assert(nks[i] == ks[i - 1] && nks[j] == ks[j - 1]);
                            } else {
                                assert(nks[j] == ks[j - 1]);
                            }
                        }
                        assert(self.states() =~= old_states.map_values(|e: (Timestamp, S)| (e.0@, e.1)).insert(0, (TimeView::Bottom, initial_state)));
                    }
                    self.lemma_views();
                }
                Ok(())
            },
        }
    }

    /// Appends a message at the current time. Regular callbacks only.
    pub fn append(&mut self, data: T) -> (r: Result<(), AccessError>)
        requires
            old(self).wf(),
            old(self).context() == AccessContext::Callback ==> has_key(keys_of(old(self).messages()), old(self).current()),
        ensures
            r is Ok <==> permitted(StateOperation::Append, old(self).context()),
            r is Err ==> r == refusal::<()>(StateOperation::Append, old(self).context()) && *final(self) == *old(self),
            r is Ok ==> {
                let i = index_of(keys_of(old(self).messages()), old(self).current());
                final(self).messages() == old(self).messages().update(i, (old(self).current(), old(self).messages()[i].1.push(data)))
            },
            final(self).wf(),
            final(self).states() == old(self).states(),
            final(self).current() == old(self).current(),
            final(self).context() == old(self).context(),
            final(self).retained() == old(self).retained(),
    {
        match self.check_access(StateOperation::Append) {
            Err(e) => Err(e),
            Ok(()) => {
                proof {
                    self.lemma_views();
                }
                let ghost old_msgs = self.message_history@;
                let p = find_key(&self.message_history, &self.current_time);
                let (k, mut msgs) = self.message_history.remove(p);
                msgs.push(data);
                self.message_history.insert(p, (k, msgs));
                proof {
                    assert(self.message_history@ =~= old_msgs.update(p as int, self.message_history@[p as int]));
                    assert(stamps(self.message_history@) =~= stamps(old_msgs));
                    assert(self.messages() =~= old_msgs.map_values(|e: (Timestamp, Vec<T>)| (e.0@, e.1@)).update(p as int, (self.current_time@, old_msgs[p as int].1@.push(data))));
                    self.lemma_views();
                }
                Ok(())
            },
        }
    }

    /// The messages received at the current time. Watermark callbacks only.
    pub fn get_current_messages(&self) -> (r: Result<&Vec<T>, AccessError>)
        requires
            self.wf(),
            self.context() == AccessContext::WatermarkCallback ==> has_key(keys_of(self.messages()), self.current()),
        ensures
            r is Ok <==> permitted(StateOperation::GetCurrentMessages, self.context()),
            r is Err ==> r == refusal::<&Vec<T>>(StateOperation::GetCurrentMessages, self.context()),
            r matches Ok(v) ==> v@ == self.messages()[index_of(keys_of(self.messages()), self.current())].1,
    {
        match self.check_access(StateOperation::GetCurrentMessages) {
            Err(e) => Err(e),
            Ok(()) => {
                proof {
                    self.lemma_views();
                }
                let p = find_key(&self.message_history, &self.current_time);
                Ok(&self.message_history[p].1)
            },
        }
    }

    /// The state at `t`, when `t` is at most the current time and lies within the
    /// retained window: the current time and up to `history_size` entries before it.
    /// Watermark callbacks only.
    pub fn get_state(&self, t: &Timestamp) -> (r: Result<Option<&S>, AccessError>)
        requires
            self.wf(),
        ensures
            r is Ok <==> permitted(StateOperation::GetState, self.context()),
            r is Err ==> r == refusal::<Option<&S>>(StateOperation::GetState, self.context()),
            r is Ok ==> (r->Ok_0 is Some <==> in_window(keys_of(self.states()), t@, self.current(), self.retained())),
            r matches Ok(Some(v)) ==> *v == self.states()[index_of(keys_of(self.states()), t@)].1,
    {
        match self.check_access(StateOperation::GetState) {
            Err(e) => Err(e),
            Ok(()) => {
                proof {
                    self.lemma_views();
                }
                let ghost ks = stamps(self.state_history@);
                if self.current_time.precedes(t) {
                    return Ok(None);
                }
                match find(&self.state_history, t) {
                    None => Ok(None),
                    Some(p) => {
                        let q = lower_bound(&self.state_history, &self.current_time);
                        proof {
                            lemma_count_lt(ks, self.current_time@, q as int);
                            assert(splits_lt(ks, t@, p as int)) by {
                                assert forall|i: int| 0 <= i < p implies (#[trigger] ks[i]).lt(t@) by {
                                    assert(ks[i].lt(ks[p as int]));
                                }
                                assert forall|i: int| p <= i < ks.len() implies t@.le(#[trigger] ks[i]) by {
                                    if i > p {
                                        assert(ks[p as int].lt(ks[i]));
                                    }
                                }
                            }
                            lemma_count_lt(ks, t@, p as int);
                            if q < p {
                                assert(ks[q as int].lt(t@));
                            }
                        }
                        if q - p <= self.history_size {
                            Ok(Some(&self.state_history[p].1))
                        } else {
                            Ok(None)
                        }
                    },
                }
            },
        }
    }

    /// The state at the current time. Watermark callbacks only.
    pub fn get_current_state(&self) -> (r: Result<&S, AccessError>)
        requires
            self.wf(),
            self.context() == AccessContext::WatermarkCallback ==> has_key(keys_of(self.states()), self.current()),
        ensures
            r is Ok <==> permitted(StateOperation::GetCurrentState, self.context()),
            r is Err ==> r == refusal::<&S>(StateOperation::GetCurrentState, self.context()),
            r matches Ok(v) ==> *v == self.states()[index_of(keys_of(self.states()), self.current())].1,
    {
        match self.check_access(StateOperation::GetCurrentState) {
            Err(e) => Err(e),
            Ok(()) => {
                proof {
                    self.lemma_views();
                }
                let p = find_key(&self.state_history, &self.current_time);
                Ok(&self.state_history[p].1)
            },
        }
    }

    /// The state at the current time, for update. Watermark callbacks only.
    pub fn get_current_state_mut(&mut self) -> (r: Result<&mut S, AccessError>)
        requires
            old(self).wf(),
            old(self).context() == AccessContext::WatermarkCallback ==> has_key(keys_of(old(self).states()), old(self).current()),
        ensures
            r is Ok <==> permitted(StateOperation::GetCurrentStateMut, old(self).context()),
            r is Err ==> r == refusal::<&mut S>(StateOperation::GetCurrentStateMut, old(self).context()) && *final(self) == *old(self),
            r matches Ok(v) ==> {
                let i = index_of(keys_of(old(self).states()), old(self).current());
                &&& *v == old(self).states()[i].1
                &&& final(self).states() == old(self).states().update(i, (old(self).current(), *final(v)))
                &&& final(self).wf()
                &&& final(self).messages() == old(self).messages()
                &&& final(self).current() == old(self).current()
                &&& final(self).context() == old(self).context()
                &&& final(self).retained() == old(self).retained()
            },
    {
        match self.check_access(StateOperation::GetCurrentStateMut) {
            Err(e) => Err(e),
            Ok(()) => {
                proof {
                    self.lemma_views();
                }
                let p = find_key(&self.state_history, &self.current_time);
                proof {
                    lemma_update_state(self.state_history@, p as int);
                }
                Ok(&mut self.state_history[p].1)
            },
        }
    }

    /// The states at and before the current time, newest first: at most `history_size`
    /// of them. Watermark callbacks only.
    pub fn iter_states(&self) -> (r: Result<Vec<(&Timestamp, &S)>, AccessError>)
        requires
            self.wf(),
        ensures
            r is Ok <==> permitted(StateOperation::IterStates, self.context()),
            r is Err ==> r == refusal::<Vec<(&Timestamp, &S)>>(StateOperation::IterStates, self.context()),
            r matches Ok(v) ==> {
                let c = count_le(keys_of(self.states()), self.current());
                &&& v@.len() == if self.retained() < c { self.retained() as int } else { c }
                &&& forall|j: int| 0 <= j < v@.len() ==> (#[trigger] v@[j].0)@ == self.states()[c - 1 - j].0
                    && *v@[j].1 == self.states()[c - 1 - j].1
                &&& forall|j: int, k: int| 0 <= j < k < v@.len() ==> (#[trigger] v@[k].0)@.lt((#[trigger] v@[j].0)@)
            },
    {
        match self.check_access(StateOperation::IterStates) {
            Err(e) => Err(e),
            Ok(()) => {
                proof {
                    self.lemma_views();
                }
                let ghost ks = stamps(self.state_history@);
                let c = upper_bound(&self.state_history, &self.current_time);
                proof {
                    lemma_count_le(ks, self.current_time@, c as int);
                }
                let n = if self.history_size < c {
                    self.history_size
                } else {
                    c
                };
                let mut out: Vec<(&Timestamp, &S)> = Vec::new();
                let mut j: usize = 0;
                while j < n
                    invariant
                        n <= c <= self.state_history@.len(),
                        j <= n,
                        ks == stamps(self.state_history@),
                        sorted(ks),
                        out@.len() == j,
                        forall|i: int| 0 <= i < j ==> (#[trigger] out@[i].0)@ == ks[c - 1 - i]
                            && *out@[i].1 == self.state_history@[c - 1 - i].1,
                    decreases n - j,
                {
                    let e = &self.state_history[c - 1 - j];
                    out.push((&e.0, &e.1));
                    j = j + 1;
                }
                proof {
                    let st = self.states();
                    assert forall|i: int| 0 <= i < out@.len() implies (#[trigger] out@[i].0)@ == st[c - 1 - i].0
                        && *out@[i].1 == st[c - 1 - i].1 by {
                        assert(st[c - 1 - i] == (ks[c - 1 - i], self.state_history@[c - 1 - i].1));
                    }
                    assert forall|a: int, b: int| 0 <= a < b < out@.len() implies (#[trigger] out@[b].0)@.lt((#[trigger] out@[a].0)@) by {
                        assert(ks[c - 1 - b].lt(ks[c - 1 - a]));
                    }
                }
                Ok(out)
            },
        }
    }

    /// The messages held for `t`, if the message history has an entry for it.
    pub fn message_history_at(&self, t: &Timestamp) -> (r: Option<&Vec<T>>)
        requires
            self.wf(),
        ensures
            r is Some <==> has_key(keys_of(self.messages()), t@),
            r matches Some(v) ==> v@ == self.messages()[index_of(keys_of(self.messages()), t@)].1,
    {
        proof {
            self.lemma_views();
        }
        match find(&self.message_history, t) {
            Some(p) => Some(&self.message_history[p].1),
            None => None,
        }
    }

    /// The state held for `t`, if the state history has an entry for it.
    pub fn state_history_at(&self, t: &Timestamp) -> (r: Option<&S>)
        requires
            self.wf(),
        ensures
            r is Some <==> has_key(keys_of(self.states()), t@),
            r matches Some(v) ==> *v == self.states()[index_of(keys_of(self.states()), t@)].1,
    {
        proof {
            self.lemma_views();
        }
        match find(&self.state_history, t) {
            Some(p) => Some(&self.state_history[p].1),
            None => None,
        }
    }

    /// The times that the message history holds, oldest first.
    pub fn message_times(&self) -> (r: Vec<Timestamp>)
        ensures
            r@.map_values(|x: Timestamp| x@) == keys_of(self.messages()),
    {
        proof {
            self.lemma_views();
        }
        times_of(&self.message_history)
    }

    /// The times that the state history holds, oldest first.
    pub fn state_times(&self) -> (r: Vec<Timestamp>)
        ensures
            r@.map_values(|x: Timestamp| x@) == keys_of(self.states()),
    {
        proof {
            self.lemma_views();
        }
        times_of(&self.state_history)
    }
}

} // verus!
