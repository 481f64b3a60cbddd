//! SQL statements: their text, the values bound to their placeholders, and
//! the columns that their rows carry.
use vstd::prelude::*;
use crate::json::{nat_text, write_nat};
use crate::text::{chars_of, push_char};

verus! {

/// Texts joined with a separator between each two of them.
pub open spec fn join(items: Seq<Seq<char>>, sep: Seq<char>) -> Seq<char>
    decreases items.len(),
{
    if items.len() == 0 {
        Seq::empty()
    } else if items.len() == 1 {
        items[0]
    } else {
        join(items.drop_last(), sep) + sep + items.last()
    }
}

/// An identifier with every double quote doubled.
pub open spec fn double_quotes(s: Seq<char>) -> Seq<char>
    decreases s.len(),
{
    if s.len() == 0 {
        Seq::empty()
    } else {
        double_quotes(s.drop_last()) + if s.last() == '"' {
            seq!['"', '"']
        } else {
            seq![s.last()]
        }
    }
}

/// An identifier as SQL writes it: between double quotes.
pub open spec fn quoted(s: Seq<char>) -> Seq<char> {
    seq!['"'] + double_quotes(s) + seq!['"']
}

/// The placeholder of the `n`-th bound value.
pub open spec fn marker(n: nat) -> Seq<char> {
    seq!['$'] + nat_text(n)
}

/// A value bound to a placeholder.
#[derive(Debug)]
pub enum BindValue {
    Null,
    Bool(bool),
    Int(i64),
    /// A floating point number, by its decimal text.
    Real(Vec<char>),
    Text(Vec<char>),
}

/// A bound value by its plain parts.
pub enum BindView {
    Null,
    Bool(bool),
    Int(int),
    Real(Seq<char>),
    Text(Seq<char>),
}

impl View for BindValue {
    type V = BindView;

    open spec fn view(&self) -> BindView {
        match self {
            BindValue::Null => BindView::Null,
            BindValue::Bool(b) => BindView::Bool(*b),
            BindValue::Int(i) => BindView::Int(*i as int),
            BindValue::Real(t) => BindView::Real(t@),
            BindValue::Text(t) => BindView::Text(t@),
        }
    }
}

/// The type of a column as the client reads it back.
#[derive(Debug, Clone, Copy, PartialEq, Eq, Structural)]
pub enum ColumnType {
    Text,
    Boolean,
    Int,
    Float,
    /// A JSON array of values of the given scalar type, stored as text.
    Array(ScalarType),
}

/// The element type of an array column.
#[derive(Debug, Clone, Copy, PartialEq, Eq, Structural)]
pub enum ScalarType {
    Text,
    Boolean,
    Int,
    Float,
}

/// A column that rows of a statement carry, by the name under which it
/// comes back.
pub struct ColumnSpec {
    pub name: Vec<char>,
    pub ty: ColumnType,
    pub optional: bool,
}

/// A statement ready to run: its text, its bound values in placeholder
/// order, and the columns of the rows it returns.
pub struct Statement {
    pub sql: String,
    pub binds: Vec<BindValue>,
    pub columns: Vec<ColumnSpec>,
}

/// Builds a statement's text and bound values together.
pub struct StatementBuilder {
    pub sql: String,
    pub binds: Vec<BindValue>,
}

impl StatementBuilder {
    /// An empty statement.
    pub fn new() -> (r: StatementBuilder)
        ensures
            r.sql@ == Seq::<char>::empty(),
            r.binds@.len() == 0,
    {
        StatementBuilder { sql: String::new(), binds: Vec::new() }
    }

    /// Appends SQL text as it is.
    pub fn syntax(&mut self, s: &str)
        ensures
            final(self).sql@ == old(self).sql@ + s@,
            final(self).binds@ == old(self).binds@,
    {
        self.sql.append(s);
    }

    /// Appends an identifier between double quotes.
    pub fn sanitize(&mut self, s: &Vec<char>)
        ensures
            final(self).sql@ == old(self).sql@ + quoted(s@),
            final(self).binds@ == old(self).binds@,
    {
        push_char(&mut self.sql, '"');
        let ghost start = self.sql@;
        let mut i: usize = 0;
        while i < s.len()
            invariant
                i <= s.len(),
                self.sql@ == start + double_quotes(s@.take(i as int)),
                self.binds@ == old(self).binds@,
            decreases s.len() - i,
        {
            proof {
                assert(s@.take(i + 1).drop_last() =~= s@.take(i as int));
            }
            if s[i] == '"' {
                push_char(&mut self.sql, '"');
                push_char(&mut self.sql, '"');
            } else {
                push_char(&mut self.sql, s[i]);
            }
            i = i + 1;
            proof {
                assert(self.sql@ =~= start + double_quotes(s@.take(i as int)));
            }
        }
        push_char(&mut self.sql, '"');
        proof {
            assert(s@.take(s@.len() as int) =~= s@);
            assert(self.sql@ =~= old(self).sql@ + quoted(s@));
        }
    }

    /// Appends an identifier given as text, between double quotes.
    pub fn sanitize_str(&mut self, s: &str)
        ensures
            final(self).sql@ == old(self).sql@ + quoted(s@),
            final(self).binds@ == old(self).binds@,
    {
        let cs = chars_of(s);
        self.sanitize(&cs);
    }

    /// Binds a value: appends its placeholder and records the value.
    pub fn bind(&mut self, v: BindValue)
        ensures
            final(self).sql@ == old(self).sql@ + marker((old(self).binds@.len() + 1) as nat),
            final(self).binds@ == old(self).binds@.push(v),
    {
        push_char(&mut self.sql, '$');
        let n = self.binds.len() as u128 + 1;
        write_nat(n, &mut self.sql);
        self.binds.push(v);
        proof {
            assert(self.sql@ =~= old(self).sql@ + marker((old(self).binds@.len() + 1) as nat));
        }
    }

    /// The finished statement, with the columns its rows carry.
    pub fn finish(self, columns: Vec<ColumnSpec>) -> (r: Statement)
        ensures
            r.sql@ == self.sql@,
            r.binds@ == self.binds@,
            r.columns@ == columns@,
    {
        Statement { sql: self.sql, binds: self.binds, columns }
    }
}

} // verus!
