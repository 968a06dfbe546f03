//! The syntax tree that the parser builds, and its mathematical model.
//!
//! Every tree type `T` comes with a model type `SpecT` of the same shape in
//! which text is a `Seq<char>` and a list is a `Seq`. The model of a value
//! is its view (`@`), which is also its deep view, so that the model of a
//! vector of trees is `v.deep_view()`.

use vstd::prelude::*;

verus! {

/// A literal value. A number keeps the text it was written with.
#[derive(PartialEq, Debug)]
pub enum Value {
    Number(String),
    String(String),
    Bool(bool),
    Null,
}

/// The model of a [`Value`].
pub enum SpecValue {
    Number(Seq<char>),
    String(Seq<char>),
    Bool(bool),
    Null,
}

impl View for Value {
    type V = SpecValue;

    open spec fn view(&self) -> SpecValue {
        match self {
            Value::Number(s) => SpecValue::Number(s@),
            Value::String(s) => SpecValue::String(s@),
            Value::Bool(b) => SpecValue::Bool(*b),
            Value::Null => SpecValue::Null,
        }
    }
}

impl DeepView for Value {
    type V = SpecValue;

    open spec fn deep_view(&self) -> SpecValue {
        self@
    }
}

/// A binary operator.
#[derive(Clone, Copy, PartialEq, Eq, Structural, Debug)]
pub enum Op {
    Eq,
    Neq,
    Lt,
    Le,
    Gt,
    Ge,
    And,
    Or,
}

/// A value expression.
#[derive(PartialEq, Debug)]
pub enum Expr {
    Ident(String),
    /// A dotted name of two or three parts.
    CompoundIdent(Vec<String>),
    Wildcard,
    QualifiedWildcard(Vec<String>),
    Value(Value),
    IsNull(Box<Expr>),
    IsNotNull(Box<Expr>),
    InList { expr: Box<Expr>, list: Vec<Expr>, negated: bool },
    Between { expr: Box<Expr>, negated: bool, low: Box<Expr>, high: Box<Expr> },
    BinaryOp { left: Box<Expr>, op: Op, right: Box<Expr> },
}

/// The model of an [`Expr`].
pub enum SpecExpr {
    Ident(Seq<char>),
    CompoundIdent(Seq<Seq<char>>),
    Wildcard,
    QualifiedWildcard(Seq<Seq<char>>),
    Value(SpecValue),
    IsNull(Box<SpecExpr>),
    IsNotNull(Box<SpecExpr>),
    InList { expr: Box<SpecExpr>, list: Seq<SpecExpr>, negated: bool },
    Between { expr: Box<SpecExpr>, negated: bool, low: Box<SpecExpr>, high: Box<SpecExpr> },
    BinaryOp { left: Box<SpecExpr>, op: Op, right: Box<SpecExpr> },
}

impl Expr {
    /// The model of this expression, by recursion over the tree.
    pub open spec fn model(&self) -> SpecExpr
        decreases self,
    {
        match self {
            Expr::Ident(s) => SpecExpr::Ident(s@),
            Expr::CompoundIdent(parts) => SpecExpr::CompoundIdent(parts.deep_view()),
            Expr::Wildcard => SpecExpr::Wildcard,
            Expr::QualifiedWildcard(parts) => SpecExpr::QualifiedWildcard(parts.deep_view()),
            Expr::Value(v) => SpecExpr::Value(v@),
            Expr::IsNull(e) => SpecExpr::IsNull(Box::new(e.model())),
            Expr::IsNotNull(e) => SpecExpr::IsNotNull(Box::new(e.model())),
            Expr::InList { expr, list, negated } => SpecExpr::InList {
                expr: Box::new(expr.model()),
                list: Seq::new(
                    list@.len(),
                    |i: int|
                        if 0 <= i < list@.len() {
                            list@[i].model()
                        } else {
                            arbitrary()
                        },
                ),
                negated: *negated,
            },
            Expr::Between { expr, negated, low, high } => SpecExpr::Between {
                expr: Box::new(expr.model()),
                negated: *negated,
                low: Box::new(low.model()),
                high: Box::new(high.model()),
            },
            Expr::BinaryOp { left, op, right } => SpecExpr::BinaryOp {
                left: Box::new(left.model()),
                op: *op,
                right: Box::new(right.model()),
            },
        }
    }
}

impl View for Expr {
    type V = SpecExpr;

    open spec fn view(&self) -> SpecExpr {
        self.model()
    }
}

impl DeepView for Expr {
    type V = SpecExpr;

    open spec fn deep_view(&self) -> SpecExpr {
        self.model()
    }
}

/// One key of an `ORDER BY` clause.
#[derive(PartialEq, Debug)]
pub struct OrderByExpr {
    pub expr: Expr,
    /// Descending order; ascending is the default.
    pub desc: bool,
}

/// The model of an [`OrderByExpr`].
pub struct SpecOrderByExpr {
    pub expr: SpecExpr,
    pub desc: bool,
}

impl View for OrderByExpr {
    type V = SpecOrderByExpr;

    open spec fn view(&self) -> SpecOrderByExpr {
        SpecOrderByExpr { expr: self.expr@, desc: self.desc }
    }
}

impl DeepView for OrderByExpr {
    type V = SpecOrderByExpr;

    open spec fn deep_view(&self) -> SpecOrderByExpr {
        self@
    }
}

/// One item of a projection list.
#[derive(PartialEq, Debug)]
pub enum SelectItem {
    Expr(Expr),
    AliasedExpr { expr: Expr, alias: String },
    /// `a.*` or `a.b.*`, holding the parts before the asterisk.
    QualifiedWildcard(Vec<String>),
    Wildcard,
}

/// The model of a [`SelectItem`].
pub enum SpecSelectItem {
    Expr(SpecExpr),
    AliasedExpr { expr: SpecExpr, alias: Seq<char> },
    QualifiedWildcard(Seq<Seq<char>>),
    Wildcard,
}

impl View for SelectItem {
    type V = SpecSelectItem;

    open spec fn view(&self) -> SpecSelectItem {
        match self {
            SelectItem::Expr(e) => SpecSelectItem::Expr(e@),
            SelectItem::AliasedExpr { expr, alias } => SpecSelectItem::AliasedExpr {
                expr: expr@,
                alias: alias@,
            },
            SelectItem::QualifiedWildcard(parts) => SpecSelectItem::QualifiedWildcard(
                parts.deep_view(),
            ),
            SelectItem::Wildcard => SpecSelectItem::Wildcard,
        }
    }
}

impl DeepView for SelectItem {
    type V = SpecSelectItem;

    open spec fn deep_view(&self) -> SpecSelectItem {
        self@
    }
}

/// The source of a query: a named table, or a parenthesised query.
#[derive(PartialEq, Debug)]
pub enum FromTable {
    Table { name: Vec<String>, alias: Option<String> },
    Derived { alias: Option<String>, select: Box<Select> },
}

/// The model of a [`FromTable`].
pub enum SpecFromTable {
    Table { name: Seq<Seq<char>>, alias: Option<Seq<char>> },
    Derived { alias: Option<Seq<char>>, select: Box<SpecSelect> },
}

/// A `SELECT` statement. The source table is always present; every other
/// clause may be absent, and is then empty or `None`.
#[derive(PartialEq, Debug)]
pub struct Select {
    pub projection: Vec<SelectItem>,
    pub from: FromTable,
    pub joins: Vec<Select>,
    pub filter: Option<Expr>,
    pub group: Vec<Expr>,
    pub order: Option<OrderByExpr>,
    pub limit: Option<Expr>,
}

/// The model of a [`Select`].
pub struct SpecSelect {
    pub projection: Seq<SpecSelectItem>,
    pub from: SpecFromTable,
    pub joins: Seq<SpecSelect>,
    pub filter: Option<SpecExpr>,
    pub group: Seq<SpecExpr>,
    pub order: Option<SpecOrderByExpr>,
    pub limit: Option<SpecExpr>,
}

impl FromTable {
    /// The model of this table reference, by recursion over the tree.
    pub open spec fn model(&self) -> SpecFromTable
        decreases self,
    {
        match self {
            FromTable::Table { name, alias } => SpecFromTable::Table {
                name: name.deep_view(),
                alias: alias.deep_view(),
            },
            FromTable::Derived { alias, select } => SpecFromTable::Derived {
                alias: alias.deep_view(),
                select: Box::new(select.model()),
            },
        }
    }
}

impl Select {
    /// The model of this query, by recursion over the tree.
    pub open spec fn model(&self) -> SpecSelect
        decreases self,
    {
        SpecSelect {
            projection: self.projection.deep_view(),
            from: self.from.model(),
            joins: Seq::new(
                self.joins@.len(),
                |i: int|
                    if 0 <= i < self.joins@.len() {
                        self.joins@[i].model()
                    } else {
                        arbitrary()
                    },
            ),
            filter: self.filter.deep_view(),
            group: self.group.deep_view(),
            order: self.order.deep_view(),
            limit: self.limit.deep_view(),
        }
    }
}

impl View for FromTable {
    type V = SpecFromTable;

    open spec fn view(&self) -> SpecFromTable {
        self.model()
    }
}

impl DeepView for FromTable {
    type V = SpecFromTable;

    open spec fn deep_view(&self) -> SpecFromTable {
        self.model()
    }
}

impl View for Select {
    type V = SpecSelect;

    open spec fn view(&self) -> SpecSelect {
        self.model()
    }
}

impl DeepView for Select {
    type V = SpecSelect;

    open spec fn deep_view(&self) -> SpecSelect {
        self.model()
    }
}

/// An `INSERT` statement. Only its kind is recorded.
#[derive(Clone, Copy, PartialEq, Eq, Structural, Debug)]
pub struct Insert {}

impl View for Insert {
    type V = Insert;

    open spec fn view(&self) -> Insert {
        *self
    }
}

impl DeepView for Insert {
    type V = Insert;

    open spec fn deep_view(&self) -> Insert {
        *self
    }
}

/// An `UPDATE` statement. Only its kind is recorded.
#[derive(Clone, Copy, PartialEq, Eq, Structural, Debug)]
pub struct Update {}

impl View for Update {
    type V = Update;

    open spec fn view(&self) -> Update {
        *self
    }
}

impl DeepView for Update {
    type V = Update;

    open spec fn deep_view(&self) -> Update {
        *self
    }
}

/// A `DELETE` statement. Only its kind is recorded.
#[derive(Clone, Copy, PartialEq, Eq, Structural, Debug)]
pub struct Delete {}

impl View for Delete {
    type V = Delete;

    open spec fn view(&self) -> Delete {
        *self
    }
}

impl DeepView for Delete {
    type V = Delete;

    open spec fn deep_view(&self) -> Delete {
        *self
    }
}

/// The type of a column.
#[derive(Clone, Copy, PartialEq, Eq, Structural, Debug)]
pub enum ColumnType {
    Int,
    /// A string of at most the given length.
    Varchar(u16),
}

/// One column of a table definition.
#[derive(PartialEq, Debug)]
pub struct ColumnDef {
    pub ty: ColumnType,
    pub name: String,
}

/// The model of a [`ColumnDef`].
pub struct SpecColumnDef {
    pub ty: ColumnType,
    pub name: Seq<char>,
}

impl View for ColumnDef {
    type V = SpecColumnDef;

    open spec fn view(&self) -> SpecColumnDef {
        SpecColumnDef { ty: self.ty, name: self.name@ }
    }
}

impl DeepView for ColumnDef {
    type V = SpecColumnDef;

    open spec fn deep_view(&self) -> SpecColumnDef {
        self@
    }
}

/// A `CREATE TABLE` statement: the table's name and its columns in the
/// order of their declaration.
#[derive(PartialEq, Debug)]
pub struct Create {
    pub name: String,
    pub columns: Vec<ColumnDef>,
}

/// The model of a [`Create`].
pub struct SpecCreate {
    pub name: Seq<char>,
    pub columns: Seq<SpecColumnDef>,
}

impl View for Create {
    type V = SpecCreate;

    open spec fn view(&self) -> SpecCreate {
        SpecCreate { name: self.name@, columns: self.columns.deep_view() }
    }
}

impl DeepView for Create {
    type V = SpecCreate;

    open spec fn deep_view(&self) -> SpecCreate {
        self@
    }
}

/// A top-level statement.
#[derive(PartialEq, Debug)]
pub enum Statement {
    Select(Select),
    Insert(Insert),
    Update(Update),
    Delete(Delete),
    Create(Create),
}

/// The model of a [`Statement`].
pub enum SpecStatement {
    Select(SpecSelect),
    Insert(Insert),
    Update(Update),
    Delete(Delete),
    Create(SpecCreate),
}

impl View for Statement {
    type V = SpecStatement;

    open spec fn view(&self) -> SpecStatement {
        match self {
            Statement::Select(s) => SpecStatement::Select(s@),
            Statement::Insert(s) => SpecStatement::Insert(*s),
            Statement::Update(s) => SpecStatement::Update(*s),
            Statement::Delete(s) => SpecStatement::Delete(*s),
            Statement::Create(s) => SpecStatement::Create(s@),
        }
    }
}

impl DeepView for Statement {
    type V = SpecStatement;

    open spec fn deep_view(&self) -> SpecStatement {
        self@
    }
}

} // verus!
