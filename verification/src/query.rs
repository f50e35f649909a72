//! The query language's abstract syntax: presets, fields, comparators,
//! boolean expressions, ordering and the parsed request.
use vstd::prelude::*;
use crate::text::owned;

verus! {

#[derive(Debug, Clone, Copy, PartialEq, Eq, Structural)]
pub enum QueryPreset {
    Services,
    Technologies,
    Episodes,
    HighDegree,
    Subdomains,
    Targets,
    Ips,
}

pub open spec fn preset_name(p: QueryPreset) -> Seq<char> {
    match p {
        QueryPreset::Services => "services"@,
        QueryPreset::Technologies => "technologies"@,
        QueryPreset::Episodes => "episodes"@,
        QueryPreset::HighDegree => "high-degree"@,
        QueryPreset::Subdomains => "subdomains"@,
        QueryPreset::Targets => "targets"@,
        QueryPreset::Ips => "ips"@,
    }
}

impl QueryPreset {
    pub fn as_str(&self) -> (r: &'static str)
        ensures
            r@ == preset_name(*self),
    {
        match self {
            QueryPreset::Services => "services",
            QueryPreset::Technologies => "technologies",
            QueryPreset::Episodes => "episodes",
            QueryPreset::HighDegree => "high-degree",
            QueryPreset::Subdomains => "subdomains",
            QueryPreset::Targets => "targets",
            QueryPreset::Ips => "ips",
        }
    }

    pub fn to_string(&self) -> (r: String)
        ensures
            r@ == preset_name(*self),
    {
        owned(self.as_str())
    }
}

#[derive(Debug, Clone, Copy, PartialEq, Eq, Structural)]
pub enum Comparator {
    Eq,
    Contains,
    Gt,
    Gte,
    Lt,
    Lte,
}

pub open spec fn comparator_symbol(c: Comparator) -> Seq<char> {
    match c {
        Comparator::Eq => "="@,
        Comparator::Contains => "~"@,
        Comparator::Gt => ">"@,
        Comparator::Gte => ">="@,
        Comparator::Lt => "<"@,
        Comparator::Lte => "<="@,
    }
}

impl Comparator {
    pub fn as_str(&self) -> (r: &'static str)
        ensures
            r@ == comparator_symbol(*self),
    {
        match self {
            Comparator::Eq => "=",
            Comparator::Contains => "~",
            Comparator::Gt => ">",
            Comparator::Gte => ">=",
            Comparator::Lt => "<",
            Comparator::Lte => "<=",
        }
    }

    pub fn to_string(&self) -> (r: String)
        ensures
            r@ == comparator_symbol(*self),
    {
        owned(self.as_str())
    }
}

#[derive(Debug, Clone, Copy, PartialEq, Eq, Structural)]
pub enum QueryField {
    Kind,
    Label,
    Technology,
    Degree,
    EpisodeKind,
    Severity,
    Criticality,
    State,
    FirstSeen,
    LastSeen,
    Source,
    Target,
    Title,
    Provider,
    Status,
    Scheme,
    TlsEnabled,
    Score,
    ResourceCount,
    NeighborKind,
    EdgeKind,
    ConnectedTo,
    InEpisode,
}

pub open spec fn field_name(f: QueryField) -> Seq<char> {
    match f {
        QueryField::Kind => "kind"@,
        QueryField::Label => "label"@,
        QueryField::Technology => "technology"@,
        QueryField::Degree => "degree"@,
        QueryField::EpisodeKind => "episode_kind"@,
        QueryField::Severity => "severity"@,
        QueryField::Criticality => "criticality"@,
        QueryField::State => "state"@,
        QueryField::FirstSeen => "first_seen"@,
        QueryField::LastSeen => "last_seen"@,
        QueryField::Source => "source"@,
        QueryField::Target => "target"@,
        QueryField::Title => "title"@,
        QueryField::Provider => "provider"@,
        QueryField::Status => "status"@,
        QueryField::Scheme => "scheme"@,
        QueryField::TlsEnabled => "tls_enabled"@,
        QueryField::Score => "score"@,
        QueryField::ResourceCount => "resource_count"@,
        QueryField::NeighborKind => "neighbor_kind"@,
        QueryField::EdgeKind => "edge_kind"@,
        QueryField::ConnectedTo => "connected_to"@,
        QueryField::InEpisode => "in_episode"@,
    }
}

impl QueryField {
    pub fn as_str(&self) -> (r: &'static str)
        ensures
            r@ == field_name(*self),
    {
        match self {
            QueryField::Kind => "kind",
            QueryField::Label => "label",
            QueryField::Technology => "technology",
            QueryField::Degree => "degree",
            QueryField::EpisodeKind => "episode_kind",
            QueryField::Severity => "severity",
            QueryField::Criticality => "criticality",
            QueryField::State => "state",
            QueryField::FirstSeen => "first_seen",
            QueryField::LastSeen => "last_seen",
            QueryField::Source => "source",
            QueryField::Target => "target",
            QueryField::Title => "title",
            QueryField::Provider => "provider",
            QueryField::Status => "status",
            QueryField::Scheme => "scheme",
            QueryField::TlsEnabled => "tls_enabled",
            QueryField::Score => "score",
            QueryField::ResourceCount => "resource_count",
            QueryField::NeighborKind => "neighbor_kind",
            QueryField::EdgeKind => "edge_kind",
            QueryField::ConnectedTo => "connected_to",
            QueryField::InEpisode => "in_episode",
        }
    }

    pub fn to_string(&self) -> (r: String)
        ensures
            r@ == field_name(*self),
    {
        owned(self.as_str())
    }
}

/// A single comparison: `field comparator value`.
#[derive(Debug, Clone, PartialEq, Eq)]
pub struct QueryClause {
    pub field: QueryField,
    pub comparator: Comparator,
    pub value: String,
}

/// The abstract value of a clause.
pub struct ClauseV {
    pub field: QueryField,
    pub comparator: Comparator,
    pub value: Seq<char>,
}

impl View for QueryClause {
    type V = ClauseV;

    open spec fn view(&self) -> ClauseV {
        ClauseV { field: self.field, comparator: self.comparator, value: self.value@ }
    }
}

#[derive(Debug)]
pub enum QueryExpr {
    Clause(QueryClause),
    And(Vec<QueryExpr>),
    Or(Vec<QueryExpr>),
    Not(Box<QueryExpr>),
}

/// The abstract value of a boolean query expression.
pub enum ExprV {
    Clause(ClauseV),
    And(Seq<ExprV>),
    Or(Seq<ExprV>),
    Not(Box<ExprV>),
}

impl QueryExpr {
    pub open spec fn view_expr(&self) -> ExprV
        decreases self,
    {
        match self {
            QueryExpr::Clause(c) => ExprV::Clause(c@),
            QueryExpr::And(items) => ExprV::And(
                Seq::new(
                    items.len() as nat,
                    |i: int|
                        if 0 <= i < items.len() {
                            items@[i].view_expr()
                        } else {
                            ExprV::And(Seq::empty())
                        },
                ),
            ),
            QueryExpr::Or(items) => ExprV::Or(
                Seq::new(
                    items.len() as nat,
                    |i: int|
                        if 0 <= i < items.len() {
                            items@[i].view_expr()
                        } else {
                            ExprV::Or(Seq::empty())
                        },
                ),
            ),
            QueryExpr::Not(inner) => ExprV::Not(Box::new((**inner).view_expr())),
        }
    }
}

impl View for QueryExpr {
    type V = ExprV;

    open spec fn view(&self) -> ExprV {
        self.view_expr()
    }
}

/// The views of a sequence of expressions.
pub open spec fn views(v: Seq<QueryExpr>) -> Seq<ExprV> {
    Seq::new(v.len(), |i: int| v[i]@)
}

pub proof fn lemma_and_view(items: Vec<QueryExpr>)
    ensures
        QueryExpr::And(items)@ == ExprV::And(views(items@)),
        QueryExpr::Or(items)@ == ExprV::Or(views(items@)),
{
    assert(QueryExpr::And(items)@ matches ExprV::And(s) && s =~= views(items@));
    assert(QueryExpr::Or(items)@ matches ExprV::Or(s) && s =~= views(items@));
}

#[derive(Debug, Clone, Copy, PartialEq, Eq, Structural)]
pub enum SortField {
    Degree,
    Label,
    Kind,
    FirstSeen,
    LastSeen,
    Score,
    Severity,
    Criticality,
}

pub open spec fn sort_field_name(f: SortField) -> Seq<char> {
    match f {
        SortField::Degree => "degree"@,
        SortField::Label => "label"@,
        SortField::Kind => "kind"@,
        SortField::FirstSeen => "first_seen"@,
        SortField::LastSeen => "last_seen"@,
        SortField::Score => "score"@,
        SortField::Severity => "severity"@,
        SortField::Criticality => "criticality"@,
    }
}

impl SortField {
    pub fn as_str(&self) -> (r: &'static str)
        ensures
            r@ == sort_field_name(*self),
    {
        match self {
            SortField::Degree => "degree",
            SortField::Label => "label",
            SortField::Kind => "kind",
            SortField::FirstSeen => "first_seen",
            SortField::LastSeen => "last_seen",
            SortField::Score => "score",
            SortField::Severity => "severity",
            SortField::Criticality => "criticality",
        }
    }

    pub fn to_string(&self) -> (r: String)
        ensures
            r@ == sort_field_name(*self),
    {
        owned(self.as_str())
    }
}

#[derive(Debug, Clone, Copy, PartialEq, Eq, Structural)]
pub enum SortDirection {
    Asc,
    Desc,
}

impl SortDirection {
    pub fn as_str(&self) -> (r: &'static str)
        ensures
            r@ == (match *self {
                SortDirection::Asc => "asc"@,
                SortDirection::Desc => "desc"@,
            }),
    {
        match self {
            SortDirection::Asc => "asc",
            SortDirection::Desc => "desc",
        }
    }
}

#[derive(Debug, Clone, Copy, PartialEq, Eq, Structural)]
pub struct SortSpec {
    pub field: SortField,
    pub direction: SortDirection,
}

/// What a query asks for: a filtered list of nodes, the neighbourhood of the
/// matching nodes, or a path between two nodes.
#[derive(Debug, Clone, Copy, PartialEq, Eq, Structural)]
pub enum QueryMode {
    Filter,
    Neighbors,
    Path,
}

#[derive(Debug)]
pub struct QueryRequest {
    pub raw: String,
    pub mode: QueryMode,
    pub preset: Option<QueryPreset>,
    pub expr: Option<QueryExpr>,
    pub limit: usize,
    pub offset: usize,
    pub sort: Option<SortSpec>,
    pub explain: bool,
    pub expand_depth: usize,
    pub neighbors_depth: usize,
    pub path_from: Option<String>,
    pub path_to: Option<String>,
}

/// The abstract value of a parsed request.
pub struct RequestV {
    pub raw: Seq<char>,
    pub mode: QueryMode,
    pub preset: Option<QueryPreset>,
    pub expr: Option<ExprV>,
    pub limit: usize,
    pub offset: usize,
    pub sort: Option<SortSpec>,
    pub explain: bool,
    pub expand_depth: usize,
    pub neighbors_depth: usize,
    pub path_from: Option<Seq<char>>,
    pub path_to: Option<Seq<char>>,
}

pub open spec fn opt_view(o: Option<String>) -> Option<Seq<char>> {
    match o {
        Some(s) => Some(s@),
        None => None,
    }
}

pub open spec fn opt_expr_view(o: Option<QueryExpr>) -> Option<ExprV> {
    match o {
        Some(e) => Some(e@),
        None => None,
    }
}

impl View for QueryRequest {
    type V = RequestV;

    open spec fn view(&self) -> RequestV {
        RequestV {
            raw: self.raw@,
            mode: self.mode,
            preset: self.preset,
            expr: opt_expr_view(self.expr),
            limit: self.limit,
            offset: self.offset,
            sort: self.sort,
            explain: self.explain,
            expand_depth: self.expand_depth,
            neighbors_depth: self.neighbors_depth,
            path_from: opt_view(self.path_from),
            path_to: opt_view(self.path_to),
        }
    }
}

} // verus!
