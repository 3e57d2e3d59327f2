//! The run-time text and argument accumulator that emitted code drives.
use vstd::layout::size_of;
use vstd::prelude::*;
use vstd::string::StringExecFns;

use crate::text::{dec, push_decimal};

verus! {

/// What a [`Builder`] holds: the text so far, how many placeholders it has
/// written, and the total byte size of the bound values it has recorded.
pub ghost struct BuilderState {
    pub text: Seq<char>,
    pub count: nat,
    pub size: nat,
}

/// One call made on a [`Builder`].
pub ghost enum BuilderCall {
    /// `push_sql`: static text.
    PushSql(Seq<char>),
    /// `push_sql_arg`: the next placeholder marker.
    PushSqlArg,
    /// `push_bind_arg`: a bound value of the given byte size.
    BindArg(nat),
}

/// The placeholder marker with number `n`.
pub open spec fn marker(n: nat) -> Seq<char> {
    "$"@ + dec(n)
}

/// The state after one call.
pub open spec fn step(st: BuilderState, call: BuilderCall) -> BuilderState {
    match call {
        BuilderCall::PushSql(s) => BuilderState { text: st.text + s, ..st },
        BuilderCall::PushSqlArg => BuilderState { text: st.text + marker(st.count), count: st.count + 1, ..st },
        BuilderCall::BindArg(n) => BuilderState { size: st.size + n, ..st },
    }
}

/// The state after a sequence of calls, made in order.
pub open spec fn apply(st: BuilderState, calls: Seq<BuilderCall>) -> BuilderState
    decreases calls.len(),
{
    if calls.len() == 0 {
        st
    } else {
        step(apply(st, calls.drop_last()), calls.last())
    }
}

/// The number of `push_sql_arg` calls in `calls`.
pub open spec fn count_args(calls: Seq<BuilderCall>) -> nat
    decreases calls.len(),
{
    if calls.len() == 0 {
        0
    } else {
        count_args(calls.drop_last()) + if calls.last() is PushSqlArg { 1nat } else { 0nat }
    }
}

/// The state of a fresh builder.
pub open spec fn empty_state() -> BuilderState {
    BuilderState { text: Seq::empty(), count: 0, size: 0 }
}

proof fn lemma_apply_count(st: BuilderState, calls: Seq<BuilderCall>)
    ensures
        apply(st, calls).count == st.count + count_args(calls),
    decreases calls.len(),
{
    if calls.len() > 0 {
        lemma_apply_count(st, calls.drop_last());
    }
}

proof fn lemma_apply_prefix(st: BuilderState, calls: Seq<BuilderCall>, k: int)
    requires
        0 <= k <= calls.len(),
    ensures
        apply(st, calls.take(k)).text.len() <= apply(st, calls).text.len(),
        apply(st, calls).text.take(apply(st, calls.take(k)).text.len() as int) == apply(st, calls.take(k)).text,
    decreases calls.len(),
{
    if k == calls.len() {
        assert(calls.take(k) =~= calls);
    } else {
        let pre = calls.drop_last();
        lemma_apply_prefix(st, pre, k);
        assert(pre.take(k) =~= calls.take(k));
        let a = apply(st, pre).text;
        let b = apply(st, calls.take(k)).text;
        assert(apply(st, calls).text.take(b.len() as int) =~= a.take(b.len() as int));
    }
}

/// Placeholder markers are numbered in call order: when call `i` of a fresh
/// builder is a `push_sql_arg`, the text after it is the text before it
/// followed by the marker numbered with the count of `push_sql_arg` calls
/// made before it; that text stays the start of the final text, and the final
/// count is the number of `push_sql_arg` calls.
pub proof fn lemma_markers_follow_calls(calls: Seq<BuilderCall>, i: int)
    requires
        0 <= i < calls.len(),
        calls[i] is PushSqlArg,
    ensures
        apply(empty_state(), calls.take(i + 1)).text == apply(empty_state(), calls.take(i)).text + marker(
            count_args(calls.take(i)),
        ),
        apply(empty_state(), calls).text.take(apply(empty_state(), calls.take(i + 1)).text.len() as int)
            == apply(empty_state(), calls.take(i + 1)).text,
        apply(empty_state(), calls).count == count_args(calls),
{
    let upto = calls.take(i + 1);
    assert(upto.drop_last() =~= calls.take(i));
    lemma_apply_count(empty_state(), calls.take(i));
    lemma_apply_count(empty_state(), calls);
    lemma_apply_prefix(empty_state(), calls, i + 1);
}

pub struct Builder {
    sql: String,
    args_count: usize,
    args_size: usize,
}

impl View for Builder {
    type V = BuilderState;

    closed spec fn view(&self) -> BuilderState {
        BuilderState { text: self.sql@, count: self.args_count as nat, size: self.args_size as nat }
    }
}

impl Builder {
    pub fn new() -> (r: Self)
        ensures
            r@ == empty_state(),
    {
        Builder { sql: String::new(), args_count: 0, args_size: 0 }
    }

    /// Appends static text.
    pub fn push_sql(&mut self, sql: &str)
        ensures
            final(self)@ == step(old(self)@, BuilderCall::PushSql(sql@)),
    {
        self.sql.append(sql);
    }

    /// Appends the next placeholder marker, `$` and the number of markers
    /// written before it.
    pub fn push_sql_arg(&mut self)
        requires
            old(self)@.count < usize::MAX,
        ensures
            final(self)@ == step(old(self)@, BuilderCall::PushSqlArg),
    {
        self.sql.append("$");
        push_decimal(&mut self.sql, self.args_count as u64);
        self.args_count = self.args_count + 1;
        assert(self.sql@ =~= old(self).sql@ + marker(old(self).args_count as nat));
    }

    /// Records a bound value's byte size; the text is left as it is.
    pub fn push_bind_arg<T>(&mut self, arg: T)
        requires
            old(self)@.size + size_of::<T>() <= usize::MAX,
        ensures
            final(self)@ == step(old(self)@, BuilderCall::BindArg(size_of::<T>())),
    {
        let size = std::mem::size_of::<T>();
        self.push_arg_size(size);
    }

    /// Records a bound value of `size` bytes; the text is left as it is.
    pub fn push_arg_size(&mut self, size: usize)
        requires
            old(self)@.size + size <= usize::MAX,
        ensures
            final(self)@ == step(old(self)@, BuilderCall::BindArg(size as nat)),
    {
        self.args_size = self.args_size + size;
    }

    /// Finishes: the text, the number of placeholders and the recorded size.
    pub fn build(self) -> (r: Query)
        ensures
            r.sql@ == self@.text,
            r.args_count == self@.count,
            r.args_size == self@.size,
    {
        Query { sql: self.sql, args_count: self.args_count, args_size: self.args_size }
    }
}

pub struct Query {
    pub sql: String,
    pub args_count: usize,
    pub args_size: usize,
}

} // verus!
