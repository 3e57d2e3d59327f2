//! Builders that write their SQL text with placeholders into a buffer and
//! hand back the arguments they were made with; one nests the other.
use vstd::prelude::*;
use vstd::string::StringExecFns;

verus! {

/// Writes `id = ?` when it has a list of ids, `TRUE` when it has none.
pub struct SubBuilder(pub i32, pub Option<Vec<String>>);

/// Writes `SELECT ? FROM ? WHERE (` then what a [`SubBuilder`] writes, then `)`.
pub struct ParentBuilder(pub &'static str, pub Option<Vec<String>>);

/// The text that a [`SubBuilder`] with the given ids writes.
pub open spec fn sub_text(ids: Option<Vec<String>>) -> Seq<char> {
    if ids is Some {
        "id = ?"@
    } else {
        "TRUE"@
    }
}

impl SubBuilder {
    /// The longest text this builder writes.
    pub const MAX_LEN: usize = 10;

    /// Writes this builder's text to `buf` and hands back its arguments.
    pub fn prepare(self, buf: &mut String) -> (r: (i32, Option<Vec<String>>))
        ensures
            final(buf)@ == old(buf)@ + sub_text(self.1),
            r == (self.0, self.1),
    {
        match &self.1 {
            Some(_) => buf.append("id = ?"),
            None => buf.append("TRUE"),
        }
        (self.0, self.1)
    }
}

impl ParentBuilder {
    /// The longest text this builder writes.
    pub const MAX_LEN: usize = 10;

    /// Writes this builder's text, with a [`SubBuilder`] made from its ids
    /// and the argument 0 inside the parentheses, and hands back the
    /// arguments of both.
    pub fn prepare(self, buf: &mut String) -> (r: (&'static str, i32, Option<Vec<String>>))
        ensures
            final(buf)@ == old(buf)@ + "SELECT ? FROM ? WHERE ("@ + sub_text(self.1) + ")"@,
            r == (self.0, 0i32, self.1),
    {
        buf.append("SELECT ? FROM ? WHERE (");
        let st = sub_builder(0, self.1).prepare(buf);
        buf.append(")");
        (self.0, st.0, st.1)
    }
}

/// A sub-builder for argument `arg0` and the optional list of ids `arg1`.
pub fn sub_builder(arg0: i32, arg1: Option<Vec<String>>) -> (r: SubBuilder)
    ensures
        r.0 == arg0,
        r.1 == arg1,
{
    SubBuilder(arg0, arg1)
}

/// A parent builder for the table name `arg0` and the optional ids `arg1`.
pub fn parent_builder(arg0: &'static str, arg1: Option<Vec<String>>) -> (r: ParentBuilder)
    ensures
        r.0 == arg0,
        r.1 == arg1,
{
    ParentBuilder(arg0, arg1)
}

} // verus!
