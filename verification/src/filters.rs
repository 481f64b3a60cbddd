//! Filters on the rows of a collection: how they are checked against the
//! collection's fields and written as a SQL condition.
use vstd::prelude::*;
use crate::json::{Json, JsonValue};
use crate::schema::{DynamicField, FieldView, fields_view, find_field, find_field_spec};
use crate::sql::{BindValue, BindView, ColumnType, StatementBuilder, marker, quoted};
use crate::text::copy_chars;
use crate::values::{bind_for, to_bind, value_fits};

verus! {

/// A filter on rows, as a request states it.
pub enum SupportedFilter {
    ColEq { col: Vec<char>, eq: JsonValue },
    ColNe { col: Vec<char>, ne: JsonValue },
    ColGt { col: Vec<char>, gt: JsonValue },
    ColGte { col: Vec<char>, gte: JsonValue },
    ColLt { col: Vec<char>, lt: JsonValue },
    ColLte { col: Vec<char>, lte: JsonValue },
    /// The text column holds the value somewhere in it.
    ColContains { col: Vec<char>, value: JsonValue },
    ColIsNull { col: Vec<char> },
    ColIsNotNull { col: Vec<char> },
    /// Every inner filter holds.
    And { filters: Vec<SupportedFilter> },
    /// Some inner filter holds.
    Or { filters: Vec<SupportedFilter> },
}

/// A comparison of a column with a value.
pub enum CompareOp {
    Eq,
    Ne,
    Gt,
    Gte,
    Lt,
    Lte,
}

/// A filter by its plain parts.
pub enum FilterView {
    Compare(CompareOp, Seq<char>, Json),
    Contains(Seq<char>, Json),
    IsNull(Seq<char>),
    IsNotNull(Seq<char>),
    And(Seq<FilterView>),
    Or(Seq<FilterView>),
}

impl SupportedFilter {
    /// The filter by its plain parts.
    pub open spec fn filter_view(&self) -> FilterView
        decreases self,
    {
        match self {
            SupportedFilter::ColEq { col, eq } => FilterView::Compare(CompareOp::Eq, col@, eq@),
            SupportedFilter::ColNe { col, ne } => FilterView::Compare(CompareOp::Ne, col@, ne@),
            SupportedFilter::ColGt { col, gt } => FilterView::Compare(CompareOp::Gt, col@, gt@),
            SupportedFilter::ColGte { col, gte } => FilterView::Compare(CompareOp::Gte, col@, gte@),
            SupportedFilter::ColLt { col, lt } => FilterView::Compare(CompareOp::Lt, col@, lt@),
            SupportedFilter::ColLte { col, lte } => FilterView::Compare(CompareOp::Lte, col@, lte@),
            SupportedFilter::ColContains { col, value } => FilterView::Contains(col@, value@),
            SupportedFilter::ColIsNull { col } => FilterView::IsNull(col@),
            SupportedFilter::ColIsNotNull { col } => FilterView::IsNotNull(col@),
            SupportedFilter::And { filters } => FilterView::And(
                Seq::new(
                    filters@.len(),
                    |i: int|
                        if 0 <= i < filters@.len() {
                            filters@[i].filter_view()
                        } else {
                            FilterView::IsNull(Seq::empty())
                        },
                ),
            ),
            SupportedFilter::Or { filters } => FilterView::Or(
                Seq::new(
                    filters@.len(),
                    |i: int|
                        if 0 <= i < filters@.len() {
                            filters@[i].filter_view()
                        } else {
                            FilterView::IsNull(Seq::empty())
                        },
                ),
            ),
        }
    }
}

impl View for SupportedFilter {
    type V = FilterView;

    open spec fn view(&self) -> FilterView {
        self.filter_view()
    }
}

/// A list of filters by their plain parts.
pub open spec fn filters_view(fs: Seq<SupportedFilter>) -> Seq<FilterView> {
    fs.map_values(|f: SupportedFilter| f@)
}

/// The SQL operator of a comparison, with the spaces around it.
pub open spec fn op_text(op: CompareOp) -> Seq<char> {
    match op {
        CompareOp::Eq => " = "@,
        CompareOp::Ne => " != "@,
        CompareOp::Gt => " > "@,
        CompareOp::Gte => " >= "@,
        CompareOp::Lt => " < "@,
        CompareOp::Lte => " <= "@,
    }
}

/// Whether a filter applies to a collection with these fields: every column
/// it names is a field, every value fits its field, and `contains` is only
/// used with text.
pub open spec fn filter_ok(f: FilterView, fields: Seq<FieldView>) -> bool
    decreases f, 1nat,
{
    match f {
        FilterView::Compare(_, col, v) => match find_field_spec(fields, col) {
            Some(fd) => value_fits(fd.ty, fd.optional, v),
            None => false,
        },
        FilterView::Contains(col, v) => match find_field_spec(fields, col) {
            Some(fd) => fd.ty == ColumnType::Text && v is Str,
            None => false,
        },
        FilterView::IsNull(col) => find_field_spec(fields, col) is Some,
        FilterView::IsNotNull(col) => find_field_spec(fields, col) is Some,
        FilterView::And(fs) => filters_ok(fs, fields),
        FilterView::Or(fs) => filters_ok(fs, fields),
    }
}

/// Whether every filter of a list applies.
pub open spec fn filters_ok(fs: Seq<FilterView>, fields: Seq<FieldView>) -> bool
    decreases fs, 0nat,
{
    if fs.len() == 0 {
        true
    } else {
        filters_ok(fs.subrange(0, fs.len() - 1), fields) && filter_ok(fs[fs.len() - 1], fields)
    }
}

/// The condition a filter becomes and the values it binds, when `n` values
/// are bound before it.
pub open spec fn filter_text(f: FilterView, fields: Seq<FieldView>, n: nat) -> (
    Seq<char>,
    Seq<BindView>,
)
    decreases f, 1nat,
{
    match f {
        FilterView::Compare(op, col, v) => (
            quoted(col) + op_text(op) + marker(n + 1),
            seq![bind_for(find_field_spec(fields, col).unwrap().ty, v)],
        ),
        FilterView::Contains(col, v) => (
            quoted(col) + " LIKE "@ + marker(n + 1),
            seq![
                BindView::Text(seq!['%'] + match v {
                    Json::Str(t) => t,
                    _ => Seq::empty(),
                } + seq!['%']),
            ],
        ),
        FilterView::IsNull(col) => (quoted(col) + " IS NULL"@, Seq::empty()),
        FilterView::IsNotNull(col) => (quoted(col) + " IS NOT NULL"@, Seq::empty()),
        FilterView::And(fs) => if fs.len() == 0 {
            ("(1 = 1)"@, Seq::empty())
        } else {
            let r = filters_text(fs, " AND "@, fields, n);
            ("("@ + r.0 + ")"@, r.1)
        },
        FilterView::Or(fs) => if fs.len() == 0 {
            ("(1 = 0)"@, Seq::empty())
        } else {
            let r = filters_text(fs, " OR "@, fields, n);
            ("("@ + r.0 + ")"@, r.1)
        },
    }
}

/// The conditions of a list of filters joined by `sep`, and the values they
/// bind, when `n` values are bound before them.
pub open spec fn filters_text(
    fs: Seq<FilterView>,
    sep: Seq<char>,
    fields: Seq<FieldView>,
    n: nat,
) -> (Seq<char>, Seq<BindView>)
    decreases fs, 0nat,
{
    if fs.len() == 0 {
        (Seq::empty(), Seq::empty())
    } else {
        let p = filters_text(fs.subrange(0, fs.len() - 1), sep, fields, n);
        let l = filter_text(fs[fs.len() - 1], fields, n + p.1.len());
        (if fs.len() == 1 {
            l.0
        } else {
            p.0 + sep + l.0
        }, p.1 + l.1)
    }
}

/// How SQL evaluates the condition `cond` on a row whose column `col`
/// holds `x`, the value `y` being bound to placeholder `$k`: the condition
/// `"col" = $k` holds where `x` equals `y`, `!=` where they differ, `<`,
/// `<=`, `>`, `>=` where `x` is less than, at most, greater than, at least
/// `y`; any other text is not such a comparison.
pub open spec fn sql_comparison_holds(cond: Seq<char>, col: Seq<char>, k: nat, x: int, y: int) -> bool {
    let lhs = quoted(col);
    let rhs = marker(k);
    if cond == lhs + " = "@ + rhs {
        x == y
    } else if cond == lhs + " != "@ + rhs {
        x != y
    } else if cond == lhs + " < "@ + rhs {
        x < y
    } else if cond == lhs + " <= "@ + rhs {
        x <= y
    } else if cond == lhs + " > "@ + rhs {
        x > y
    } else if cond == lhs + " >= "@ + rhs {
        x >= y
    } else {
        false
    }
}

/// Two texts that differ at one place differ between the same ends.
proof fn lemma_middle_differs(lhs: Seq<char>, a: Seq<char>, b: Seq<char>, rhs: Seq<char>, i: int)
    requires
        0 <= i < a.len(),
        i < b.len(),
        a[i] != b[i],
    ensures
        lhs + a + rhs != lhs + b + rhs,
{
    assert((lhs + a + rhs)[lhs.len() + i] == a[i]);
    assert((lhs + b + rhs)[lhs.len() + i] == b[i]);
}

/// A comparison filter keeps exactly the rows its kind names: SQL reads
/// the condition written for `col_eq`, `col_ne`, `col_lt`, `col_lte`,
/// `col_gt`, `col_gte` as the column being equal to, different from, less
/// than, at most, greater than, at least the value, which is bound, as
/// the next placeholder, from the filter's own value.
pub proof fn comparison_filters_keep_the_rows_they_name(
    col: Seq<char>,
    v: Json,
    fields: Seq<FieldView>,
    n: nat,
    x: int,
    y: int,
)
    ensures
        sql_comparison_holds(filter_text(FilterView::Compare(CompareOp::Eq, col, v), fields, n).0, col, n + 1, x, y)
            == (x == y),
        sql_comparison_holds(filter_text(FilterView::Compare(CompareOp::Ne, col, v), fields, n).0, col, n + 1, x, y)
            == (x != y),
        sql_comparison_holds(filter_text(FilterView::Compare(CompareOp::Lt, col, v), fields, n).0, col, n + 1, x, y)
            == (x < y),
        sql_comparison_holds(filter_text(FilterView::Compare(CompareOp::Lte, col, v), fields, n).0, col, n + 1, x, y)
            == (x <= y),
        sql_comparison_holds(filter_text(FilterView::Compare(CompareOp::Gt, col, v), fields, n).0, col, n + 1, x, y)
            == (x > y),
        sql_comparison_holds(filter_text(FilterView::Compare(CompareOp::Gte, col, v), fields, n).0, col, n + 1, x, y)
            == (x >= y),
        forall|op: CompareOp|
            #[trigger] filter_text(FilterView::Compare(op, col, v), fields, n).1 == seq![
                bind_for(find_field_spec(fields, col).unwrap().ty, v),
            ],
{
    reveal_strlit(" = ");
    reveal_strlit(" != ");
    reveal_strlit(" < ");
    reveal_strlit(" <= ");
    reveal_strlit(" > ");
    reveal_strlit(" >= ");
    let lhs = quoted(col);
    let rhs = marker(n + 1);
    let eq = " = "@;
    let ne = " != "@;
    let lt = " < "@;
    let le = " <= "@;
    let gt = " > "@;
    let ge = " >= "@;
    lemma_middle_differs(lhs, ne, eq, rhs, 1);
    lemma_middle_differs(lhs, lt, eq, rhs, 1);
    lemma_middle_differs(lhs, lt, ne, rhs, 1);
    lemma_middle_differs(lhs, le, eq, rhs, 1);
    lemma_middle_differs(lhs, le, ne, rhs, 1);
    lemma_middle_differs(lhs, le, lt, rhs, 2);
    lemma_middle_differs(lhs, gt, eq, rhs, 1);
    lemma_middle_differs(lhs, gt, ne, rhs, 1);
    lemma_middle_differs(lhs, gt, lt, rhs, 1);
    lemma_middle_differs(lhs, gt, le, rhs, 1);
    lemma_middle_differs(lhs, ge, eq, rhs, 1);
    lemma_middle_differs(lhs, ge, ne, rhs, 1);
    lemma_middle_differs(lhs, ge, lt, rhs, 1);
    lemma_middle_differs(lhs, ge, le, rhs, 1);
    lemma_middle_differs(lhs, ge, gt, rhs, 2);
}

/// Bound values by their plain parts.
pub open spec fn binds_view(v: Seq<BindValue>) -> Seq<BindView> {
    v.map_values(|b: BindValue| b@)
}

/// The SQL operator of a comparison, as text.
fn op_str(op: &CompareOp) -> (r: &'static str)
    ensures
        r@ == op_text(*op),
{
    match op {
        CompareOp::Eq => " = ",
        CompareOp::Ne => " != ",
        CompareOp::Gt => " > ",
        CompareOp::Gte => " >= ",
        CompareOp::Lt => " < ",
        CompareOp::Lte => " <= ",
    }
}

/// Writes `col op $n` for a comparison, checking the value against the
/// column's field.
fn write_compare(
    op: CompareOp,
    col: &Vec<char>,
    v: &JsonValue,
    fields: &Vec<DynamicField>,
    b: &mut StatementBuilder,
) -> (r: Result<(), ()>)
    ensures
        r is Ok <==> filter_ok(FilterView::Compare(op, col@, v@), fields_view(fields@)),
        r is Ok ==> {
            let t = filter_text(
                FilterView::Compare(op, col@, v@),
                fields_view(fields@),
                old(b).binds@.len(),
            );
            &&& final(b).sql@ == old(b).sql@ + t.0
            &&& binds_view(final(b).binds@) == binds_view(old(b).binds@) + t.1
        },
{
    let i = match find_field(fields, col) {
        Some(i) => i,
        None => return Err(()),
    };
    let fd = &fields[i];
    let bind = match to_bind(&fd.type_info, fd.is_optional, v) {
        Ok(bind) => bind,
        Err(_) => return Err(()),
    };
    let ghost bv = bind@;
    b.sanitize(col);
    b.syntax(op_str(&op));
    b.bind(bind);
    proof {
        assert(b.sql@ =~= old(b).sql@ + filter_text(
            FilterView::Compare(op, col@, v@),
            fields_view(fields@),
            old(b).binds@.len(),
        ).0);
        assert(binds_view(b.binds@) =~= binds_view(old(b).binds@) + seq![bv]);
    }
    Ok(())
}

impl SupportedFilter {
    /// Checks the filter against a collection's fields and writes its
    /// condition, binding its values.
    pub fn write(&self, fields: &Vec<DynamicField>, b: &mut StatementBuilder) -> (r: Result<(), ()>)
        ensures
            r is Ok <==> filter_ok(self@, fields_view(fields@)),
            r is Ok ==> {
                let t = filter_text(self@, fields_view(fields@), old(b).binds@.len());
                &&& final(b).sql@ == old(b).sql@ + t.0
                &&& binds_view(final(b).binds@) == binds_view(old(b).binds@) + t.1
            },
        decreases self, 1nat,
    {
        match self {
            SupportedFilter::ColEq { col, eq } => write_compare(CompareOp::Eq, col, eq, fields, b),
            SupportedFilter::ColNe { col, ne } => write_compare(CompareOp::Ne, col, ne, fields, b),
            SupportedFilter::ColGt { col, gt } => write_compare(CompareOp::Gt, col, gt, fields, b),
            SupportedFilter::ColGte { col, gte } => write_compare(CompareOp::Gte, col, gte, fields, b),
            SupportedFilter::ColLt { col, lt } => write_compare(CompareOp::Lt, col, lt, fields, b),
            SupportedFilter::ColLte { col, lte } => write_compare(CompareOp::Lte, col, lte, fields, b),
            SupportedFilter::ColContains { col, value } => {
                let i = match find_field(fields, col) {
                    Some(i) => i,
                    None => return Err(()),
                };
                if fields[i].type_info != ColumnType::Text {
                    return Err(());
                }
                let needle = match value {
                    JsonValue::Str(t) => t,
                    _ => return Err(()),
                };
                let mut pattern: Vec<char> = Vec::new();
                pattern.push('%');
                let mut k: usize = 0;
                while k < needle.len()
                    invariant
                        k <= needle@.len(),
                        pattern@ == seq!['%'] + needle@.take(k as int),
                    decreases needle@.len() - k,
                {
                    pattern.push(needle[k]);
                    k = k + 1;
                    proof {
                        assert(pattern@ =~= seq!['%'] + needle@.take(k as int));
                    }
                }
                pattern.push('%');
                let ghost pv = pattern@;
                b.sanitize(col);
                b.syntax(" LIKE ");
                b.bind(BindValue::Text(pattern));
                proof {
                    assert(needle@.take(needle@.len() as int) =~= needle@);
                    assert(pv =~= seq!['%'] + needle@ + seq!['%']);
                    assert(b.sql@ =~= old(b).sql@ + filter_text(
                        self@,
                        fields_view(fields@),
                        old(b).binds@.len(),
                    ).0);
                    assert(binds_view(b.binds@) =~= binds_view(old(b).binds@) + filter_text(
                        self@,
                        fields_view(fields@),
                        old(b).binds@.len(),
                    ).1);
                }
                Ok(())
            },
            SupportedFilter::ColIsNull { col } => {
                if find_field(fields, col).is_none() {
                    return Err(());
                }
                b.sanitize(col);
                b.syntax(" IS NULL");
                proof {
                    assert(b.sql@ =~= old(b).sql@ + filter_text(
                        self@,
                        fields_view(fields@),
                        old(b).binds@.len(),
                    ).0);
                    assert(binds_view(b.binds@) =~= binds_view(old(b).binds@) + Seq::<BindView>::empty());
                }
                Ok(())
            },
            SupportedFilter::ColIsNotNull { col } => {
                if find_field(fields, col).is_none() {
                    return Err(());
                }
                b.sanitize(col);
                b.syntax(" IS NOT NULL");
                proof {
                    assert(b.sql@ =~= old(b).sql@ + filter_text(
                        self@,
                        fields_view(fields@),
                        old(b).binds@.len(),
                    ).0);
                    assert(binds_view(b.binds@) =~= binds_view(old(b).binds@) + Seq::<BindView>::empty());
                }
                Ok(())
            },
            SupportedFilter::And { filters } => {
                if filters.len() == 0 {
                    b.syntax("(1 = 1)");
                    proof {
                        assert(binds_view(b.binds@) =~= binds_view(old(b).binds@) + Seq::<BindView>::empty());
                    }
                    return Ok(());
                }
                write_group(self, filters, " AND ", fields, b)
            },
            SupportedFilter::Or { filters } => {
                if filters.len() == 0 {
                    b.syntax("(1 = 0)");
                    proof {
                        assert(binds_view(b.binds@) =~= binds_view(old(b).binds@) + Seq::<BindView>::empty());
                    }
                    return Ok(());
                }
                write_group(self, filters, " OR ", fields, b)
            },
        }
    }
}

/// Writes a nonempty group of filters joined by `sep`, in parentheses.
fn write_group(
    whole: &SupportedFilter,
    filters: &Vec<SupportedFilter>,
    sep: &str,
    fields: &Vec<DynamicField>,
    b: &mut StatementBuilder,
) -> (r: Result<(), ()>)
    requires
        filters@.len() > 0,
        (*whole == SupportedFilter::And { filters: *filters } && sep@ == " AND "@) || (*whole
            == SupportedFilter::Or { filters: *filters } && sep@ == " OR "@),
    ensures
        r is Ok <==> filter_ok(whole@, fields_view(fields@)),
        r is Ok ==> {
            let t = filter_text(whole@, fields_view(fields@), old(b).binds@.len());
            &&& final(b).sql@ == old(b).sql@ + t.0
            &&& binds_view(final(b).binds@) == binds_view(old(b).binds@) + t.1
        },
    decreases whole, 0nat,
{
    let ghost fv = fields_view(fields@);
    let ghost fs = match whole@ {
        FilterView::And(fs) => fs,
        FilterView::Or(fs) => fs,
        _ => Seq::empty(),
    };
    let ghost n0 = old(b).binds@.len();
    proof {
        assert(fs.len() == filters@.len());
        assert forall|k: int| 0 <= k < filters@.len() implies fs[k] == (#[trigger] filters@[k])@ by {
        }
    }
    b.syntax("(");
    let ghost start = b.sql@;
    let ghost start_binds = binds_view(b.binds@);
    let mut i: usize = 0;
    proof {
        assert(fs.subrange(0, 0) =~= Seq::<FilterView>::empty());
        assert(b.sql@ =~= start + Seq::<char>::empty());
        assert(binds_view(b.binds@) =~= start_binds + Seq::<BindView>::empty());
    }
    while i < filters.len()
        invariant
            0 <= i <= filters@.len(),
            fs.len() == filters@.len(),
            forall|k: int| 0 <= k < filters@.len() ==> fs[k] == (#[trigger] filters@[k])@,
            fv == fields_view(fields@),
            start_binds == binds_view(old(b).binds@),
            n0 == old(b).binds@.len(),
            filters_ok(fs.subrange(0, i as int), fv),
            b.sql@ == start + filters_text(fs.subrange(0, i as int), sep@, fv, n0).0,
            binds_view(b.binds@) == start_binds + filters_text(fs.subrange(0, i as int), sep@, fv, n0).1,
            b.binds@.len() == n0 + filters_text(fs.subrange(0, i as int), sep@, fv, n0).1.len(),
            (*whole == SupportedFilter::And { filters: *filters }) || (*whole == SupportedFilter::Or { filters: *filters }),
            whole@ == FilterView::And(fs) || whole@ == FilterView::Or(fs),
        decreases filters@.len() - i,
    {
        proof {
            if *whole is And {
                assert(decreases_to!(*whole => (*whole)->And_filters));
            } else {
                assert(decreases_to!(*whole => (*whole)->Or_filters));
            }
            assert(decreases_to!(*filters => filters@));
            assert(decreases_to!(filters@ => filters@[i as int]));
            assert(fs.subrange(0, i + 1).subrange(0, i as int) =~= fs.subrange(0, i as int));
        }
        if i > 0 {
            b.syntax(sep);
        }
        let ghost before_sql = b.sql@;
        let ghost before_binds = binds_view(b.binds@);
        let res = filters[i].write(fields, b);
        if res.is_err() {
            proof {
                assert(!filter_ok(fs[i as int], fv));
                assert(fs.subrange(0, i + 1)[i as int] == fs[i as int]);
                assert(!filters_ok(fs.subrange(0, i + 1), fv));
                assert(filter_ok(whole@, fv) == filters_ok(fs, fv));
                if filters_ok(fs, fv) {
                    lemma_filters_ok_prefix(fs, fv, i + 1);
                }
            }
            return Err(());
        }
        i = i + 1;
        proof {
            let p = filters_text(fs.subrange(0, i - 1), sep@, fv, n0);
            assert(p.1.len() + n0 == before_binds.len());
            assert(b.sql@ =~= start + filters_text(fs.subrange(0, i as int), sep@, fv, n0).0);
            assert(binds_view(b.binds@) =~= start_binds + filters_text(fs.subrange(0, i as int), sep@, fv, n0).1);
            assert(binds_view(b.binds@).len() == b.binds@.len());
            assert(start_binds.len() == n0);
        }
    }
    b.syntax(")");
    proof {
        assert(fs.subrange(0, fs.len() as int) =~= fs);
        assert(b.sql@ =~= old(b).sql@ + filter_text(whole@, fv, n0).0);
    }
    Ok(())
}

/// A list of filters all of which apply has every prefix applying.
proof fn lemma_filters_ok_prefix(fs: Seq<FilterView>, fields: Seq<FieldView>, i: int)
    requires
        0 <= i <= fs.len(),
        filters_ok(fs, fields),
    ensures
        filters_ok(fs.subrange(0, i), fields),
    decreases fs.len() - i,
{
    if i < fs.len() {
        lemma_filters_ok_prefix(fs, fields, i + 1);
        assert(fs.subrange(0, i + 1).subrange(0, i) =~= fs.subrange(0, i));
    } else {
        assert(fs.subrange(0, i) =~= fs);
    }
}

} // verus!
