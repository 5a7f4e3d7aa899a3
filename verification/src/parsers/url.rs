//! Parser for API descriptions written as `<base>|<version><paths>[?<queries>]`,
//! e.g. `https://spotify.com|v1/{artist,id}/hello?joe=5&bloe=4`.
//!
//! A path is a `/`-separated list of parameters: a constant segment such
//! as `hello`, or a typed parameter `{name,data_type}`. Queries are
//! `&`-separated `name=data_type` pairs.
use vstd::prelude::*;

use crate::text::{
    chars_of, find_from, first_from, is_sep, is_space, is_space_char, lemma_first_from,
    lemma_split_pieces_have_no_separator, lemma_trim_idempotent, lemma_first_from_is,
    lemma_trim_no_space, range_pieces, split_range,
    split_seq, trim, trim_range,
};

verus! {

/// Why a single path or query parameter was refused.
pub enum ParamFault {
    Empty,
    IllFormed(Seq<char>),
}

/// Why a path was refused.
pub enum PathsFault {
    StartSlash(Seq<char>),
    EmptyPath,
    BadMatch(Seq<char>),
    BadPath(ParamFault),
}

/// Why a query string was refused.
pub enum QueriesFault {
    EmptyQueries,
    BadQuery(ParamFault),
}

/// A parameter as its name and its data type.
pub type ParamModel = (Seq<char>, Seq<char>);

/// What an `ApiGet` describes.
pub struct ApiGetModel {
    pub url: Seq<char>,
    pub ver: Seq<char>,
    pub paths: Seq<ParamModel>,
    pub queries: Option<Seq<ParamModel>>,
}

#[derive(Debug, PartialEq, Eq)]
pub enum PathParamError {
    EmptyParam,
    IllFormedParam(String),
}

#[derive(Debug, PartialEq, Eq)]
pub enum PathsError {
    StartSlash(String),
    EmptyPath,
    BadMatch(String),
    BadPath(PathParamError),
}

#[derive(Debug, PartialEq, Eq)]
pub enum QueryParamError {
    EmptyParam,
    IllFormedParam(String),
}

#[derive(Debug, PartialEq, Eq)]
pub enum QueriesError {
    EmptyQueries,
    BadQuery(QueryParamError),
}

impl View for PathParamError {
    type V = ParamFault;

    open spec fn view(&self) -> ParamFault {
        match self {
            PathParamError::EmptyParam => ParamFault::Empty,
            PathParamError::IllFormedParam(s) => ParamFault::IllFormed(s@),
        }
    }
}

impl View for QueryParamError {
    type V = ParamFault;

    open spec fn view(&self) -> ParamFault {
        match self {
            QueryParamError::EmptyParam => ParamFault::Empty,
            QueryParamError::IllFormedParam(s) => ParamFault::IllFormed(s@),
        }
    }
}

impl View for PathsError {
    type V = PathsFault;

    open spec fn view(&self) -> PathsFault {
        match self {
            PathsError::StartSlash(s) => PathsFault::StartSlash(s@),
            PathsError::EmptyPath => PathsFault::EmptyPath,
            PathsError::BadMatch(s) => PathsFault::BadMatch(s@),
            PathsError::BadPath(e) => PathsFault::BadPath(e@),
        }
    }
}

impl View for QueriesError {
    type V = QueriesFault;

    open spec fn view(&self) -> QueriesFault {
        match self {
            QueriesError::EmptyQueries => QueriesFault::EmptyQueries,
            QueriesError::BadQuery(e) => QueriesFault::BadQuery(e@),
        }
    }
}

impl From<PathParamError> for PathsError {
    fn from(e: PathParamError) -> (r: PathsError) {
        PathsError::BadPath(e)
    }
}

impl vstd::std_specs::convert::FromSpecImpl<PathParamError> for PathsError {
    open spec fn obeys_from_spec() -> bool {
        true
    }

    open spec fn from_spec(e: PathParamError) -> PathsError {
        PathsError::BadPath(e)
    }
}

impl From<QueryParamError> for QueriesError {
    fn from(e: QueryParamError) -> (r: QueriesError) {
        QueriesError::BadQuery(e)
    }
}

impl vstd::std_specs::convert::FromSpecImpl<QueryParamError> for QueriesError {
    open spec fn obeys_from_spec() -> bool {
        true
    }

    open spec fn from_spec(e: QueryParamError) -> QueriesError {
        QueriesError::BadQuery(e)
    }
}

/// A query parameter `name=data_type`.
#[derive(Debug, PartialEq, Eq)]
pub struct QueryParam<'a> {
    pub name: &'a str,
    pub data_type: &'a str,
}

/// A path parameter: a constant segment (data type `const`) or `{name,data_type}`.
#[derive(Debug, PartialEq, Eq)]
pub struct PathParam<'a> {
    pub name: &'a str,
    pub data_type: &'a str,
}

/// A parsed API description.
#[derive(Debug, PartialEq, Eq)]
pub struct ApiGet<'a> {
    pub url: &'a str,
    pub ver: &'a str,
    pub paths: Vec<PathParam<'a>>,
    pub queries: Option<Vec<QueryParam<'a>>>,
}

impl<'a> View for QueryParam<'a> {
    type V = ParamModel;

    open spec fn view(&self) -> ParamModel {
        (self.name@, self.data_type@)
    }
}

impl<'a> View for PathParam<'a> {
    type V = ParamModel;

    open spec fn view(&self) -> ParamModel {
        (self.name@, self.data_type@)
    }
}

pub open spec fn path_params_view<'a>(v: Seq<PathParam<'a>>) -> Seq<ParamModel> {
    v.map_values(|p: PathParam<'a>| p@)
}

pub open spec fn query_params_view<'a>(v: Seq<QueryParam<'a>>) -> Seq<ParamModel> {
    v.map_values(|p: QueryParam<'a>| p@)
}

impl<'a> View for ApiGet<'a> {
    type V = ApiGetModel;

    open spec fn view(&self) -> ApiGetModel {
        ApiGetModel {
            url: self.url@,
            ver: self.ver@,
            paths: path_params_view(self.paths@),
            queries: match self.queries {
                Some(q) => Some(query_params_view(q@)),
                None => None,
            },
        }
    }
}

// ---------------------------------------------------------------------
// Path parameters
// ---------------------------------------------------------------------

/// The data type given to a constant path segment.
pub open spec fn const_type() -> Seq<char> {
    "const"@
}

/// A typed parameter `{name,data_type}` whose `{` stands at `s`: the
/// positions of the `,` and of the closing `}`. The name is one character
/// that is not white space followed by one or more that are not `,`; the
/// data type is the same, and the shortest one is taken.
pub open spec fn typed_param_at(p: Seq<char>, s: int) -> Option<(int, int)> {
    let n = p.len() as int;
    if !(0 <= s && s + 1 < n && p[s] == '{' && !is_space(p[s + 1])) {
        None
    } else {
        let j = first_from(p, s + 2, ',');
        if !(s + 3 <= j && j + 1 < n && !is_space(p[j + 1])) {
            None
        } else {
            let e = first_from(p, j + 3, '}');
            if e < n && e < first_from(p, j + 2, ',') {
                Some((j, e))
            } else {
                None
            }
        }
    }
}

/// The leftmost typed parameter at or after `s`, as `(start, comma, close)`.
pub open spec fn typed_param_from(p: Seq<char>, s: int) -> Option<(int, int, int)>
    decreases p.len() - s,
{
    if s >= p.len() || s < 0 {
        None
    } else {
        match typed_param_at(p, s) {
            Some((j, e)) => Some((s, j, e)),
            None => typed_param_from(p, s + 1),
        }
    }
}

/// Whether `p` holds a `{`, `}` or `,`.
pub open spec fn has_brace_or_comma(p: Seq<char>) -> bool {
    exists|i: int| 0 <= i < p.len() && (p[i] == '{' || p[i] == '}' || p[i] == ',')
}

/// What one path segment parses to.
pub open spec fn spec_path_param(p: Seq<char>) -> Result<ParamModel, ParamFault> {
    if p.len() == 0 {
        Err(ParamFault::Empty)
    } else {
        match typed_param_from(p, 0) {
            Some((s, j, e)) => Ok((p.subrange(s + 1, j), p.subrange(j + 1, e))),
            None => if has_brace_or_comma(p) {
                Err(ParamFault::IllFormed(p))
            } else {
                Ok((p, const_type()))
            },
        }
    }
}

/// All segments parsed in order; the first refusal wins.
pub open spec fn collect_path_params(segs: Seq<Seq<char>>) -> Result<Seq<ParamModel>, ParamFault>
    decreases segs.len(),
{
    if segs.len() == 0 {
        Ok(Seq::empty())
    } else {
        match collect_path_params(segs.drop_last()) {
            Err(e) => Err(e),
            Ok(v) => match spec_path_param(segs.last()) {
                Err(e) => Err(e),
                Ok(x) => Ok(v.push(x)),
            },
        }
    }
}

/// What a path `/seg/seg/...` parses to.
pub open spec fn spec_api_path(p: Seq<char>) -> Result<Seq<ParamModel>, PathsFault> {
    if p.len() == 0 {
        Err(PathsFault::EmptyPath)
    } else if p[0] != '/' {
        Err(PathsFault::StartSlash(p))
    } else {
        match collect_path_params(split_seq(p.skip(1), '/', '/')) {
            Ok(v) => Ok(v),
            Err(e) => Err(PathsFault::BadPath(e)),
        }
    }
}

// ---------------------------------------------------------------------
// Query parameters
// ---------------------------------------------------------------------

/// What one `name=data_type` pair parses to.
pub open spec fn spec_query_param(q: Seq<char>) -> Result<ParamModel, ParamFault> {
    if q.len() == 0 {
        Err(ParamFault::Empty)
    } else {
        let parts = split_seq(q, '=', '=');
        if parts.len() == 2 {
            Ok((parts[0], parts[1]))
        } else {
            Err(ParamFault::IllFormed(q))
        }
    }
}

/// All pairs parsed in order; the first refusal wins.
pub open spec fn collect_query_params(qs: Seq<Seq<char>>) -> Result<Seq<ParamModel>, ParamFault>
    decreases qs.len(),
{
    if qs.len() == 0 {
        Ok(Seq::empty())
    } else {
        match collect_query_params(qs.drop_last()) {
            Err(e) => Err(e),
            Ok(v) => match spec_query_param(qs.last()) {
                Err(e) => Err(e),
                Ok(x) => Ok(v.push(x)),
            },
        }
    }
}

/// What a query string `a=b&c=d` parses to.
pub open spec fn spec_api_queries(q: Seq<char>) -> Result<Seq<ParamModel>, QueriesFault> {
    if q.len() == 0 {
        Err(QueriesFault::EmptyQueries)
    } else {
        match collect_query_params(split_seq(q, '&', '&')) {
            Ok(v) => Ok(v),
            Err(e) => Err(QueriesFault::BadQuery(e)),
        }
    }
}

// ---------------------------------------------------------------------
// The executable parsers
// ---------------------------------------------------------------------

/// `typed_param_at` for a `{` candidate at `s`.
fn typed_param_at_exec(p: &Vec<char>, s: usize) -> (r: Option<(usize, usize)>)
    requires
        s < p@.len(),
    ensures
        r is None <==> typed_param_at(p@, s as int) is None,
        r matches Some((j, e)) ==> typed_param_at(p@, s as int) == Some((j as int, e as int)),
{
    let n = p.len();
    if !(s + 1 < n && p[s] == '{' && !is_space_char(p[s + 1])) {
        return None;
    }
    let j = find_from(p, s + 2, ',');
    proof {
        lemma_first_from(p@, s + 2, ',');
    }
    if !(j > s + 2 && j < n && j + 1 < n && !is_space_char(p[j + 1])) {
        return None;
    }
    if n - j < 3 {
        assert(first_from(p@, j + 3, '}') == n);
        return None;
    }
    let e = find_from(p, j + 3, '}');
    let c2 = find_from(p, j + 2, ',');
    if e < n && e < c2 {
        Some((j, e))
    } else {
        None
    }
}

proof fn lemma_typed_param_bounds(p: Seq<char>, s: int)
    requires
        typed_param_at(p, s) is Some,
    ensures
        ({
            let (j, e) = typed_param_at(p, s)->0;
            0 <= s && s + 3 <= j && j + 3 <= e && e < p.len()
        }),
{
    lemma_first_from(p, s + 2, ',');
    let j = first_from(p, s + 2, ',');
    lemma_first_from(p, j + 3, '}');
}

/// The leftmost typed parameter of `p`.
fn typed_param_search(p: &Vec<char>) -> (r: Option<(usize, usize, usize)>)
    ensures
        r is None <==> typed_param_from(p@, 0) is None,
        r matches Some((s, j, e)) ==> typed_param_from(p@, 0) == Some(
            (s as int, j as int, e as int),
        ),
        r matches Some((s, j, e)) ==> s + 3 <= j && j + 3 <= e && e < p@.len(),
{
    let mut s: usize = 0;
    while s < p.len()
        invariant
            s <= p@.len(),
            typed_param_from(p@, 0) == typed_param_from(p@, s as int),
        decreases p@.len() - s,
    {
        match typed_param_at_exec(p, s) {
            Some((j, e)) => {
                proof {
                    lemma_typed_param_bounds(p@, s as int);
                }
                return Some((s, j, e));
            },
            None => {},
        }
        s = s + 1;
    }
    None
}

/// Executable `has_brace_or_comma`.
fn has_brace_or_comma_exec(p: &Vec<char>) -> (r: bool)
    ensures
        r == has_brace_or_comma(p@),
{
    let mut i: usize = 0;
    while i < p.len()
        invariant
            i <= p@.len(),
            forall|k: int| 0 <= k < i ==> !(p@[k] == '{' || p@[k] == '}' || p@[k] == ','),
        decreases p@.len() - i,
    {
        if p[i] == '{' || p[i] == '}' || p[i] == ',' {
            return true;
        }
        i = i + 1;
    }
    false
}

/// Parses one path segment: `{name,data_type}` gives that name and data
/// type, a segment without `{`, `}` and `,` is a constant of data type
/// `const`, anything else is ill formed.
pub fn parse_path_param<'a>(param: &'a str) -> (r: Result<PathParam<'a>, PathParamError>)
    ensures
        (match r {
            Ok(v) => Ok(v@),
            Err(e) => Err(e@),
        }) == spec_path_param(param@),
{
    let p = chars_of(param);
    if p.len() == 0 {
        return Err(PathParamError::EmptyParam);
    }
    match typed_param_search(&p) {
        Some((s, j, e)) => {
            let name = param.substring_char(s + 1, j);
            let data_type = param.substring_char(j + 1, e);
            Ok(PathParam { name, data_type })
        },
        None => {
            if has_brace_or_comma_exec(&p) {
                Err(PathParamError::IllFormedParam(String::from_str(param)))
            } else {
                Ok(PathParam { name: param, data_type: "const" })
            }
        },
    }
}

proof fn lemma_collect_path_err(segs: Seq<Seq<char>>, k: int, e: ParamFault)
    requires
        0 <= k <= segs.len(),
        collect_path_params(segs.take(k)) == Err::<Seq<ParamModel>, ParamFault>(e),
    ensures
        collect_path_params(segs) == Err::<Seq<ParamModel>, ParamFault>(e),
    decreases segs.len() - k,
{
    if k < segs.len() {
        assert(segs.take(k + 1).drop_last() =~= segs.take(k));
        lemma_collect_path_err(segs, k + 1, e);
    } else {
        assert(segs.take(k) =~= segs);
    }
}

proof fn lemma_collect_query_err(segs: Seq<Seq<char>>, k: int, e: ParamFault)
    requires
        0 <= k <= segs.len(),
        collect_query_params(segs.take(k)) == Err::<Seq<ParamModel>, ParamFault>(e),
    ensures
        collect_query_params(segs) == Err::<Seq<ParamModel>, ParamFault>(e),
    decreases segs.len() - k,
{
    if k < segs.len() {
        assert(segs.take(k + 1).drop_last() =~= segs.take(k));
        lemma_collect_query_err(segs, k + 1, e);
    } else {
        assert(segs.take(k) =~= segs);
    }
}

/// Parses a path `/seg/seg/...` into its parameters, in order.
pub fn parse_api_path<'a>(path: &'a str) -> (r: Result<Vec<PathParam<'a>>, PathsError>)
    ensures
        (match r {
            Ok(v) => Ok(path_params_view(v@)),
            Err(e) => Err(e@),
        }) == spec_api_path(path@),
{
    let v = chars_of(path);
    let n = v.len();
    if n == 0 {
        return Err(PathsError::EmptyPath);
    }
    if v[0] != '/' {
        return Err(PathsError::StartSlash(String::from_str(path)));
    }
    let ranges = split_range(&v, 1, n, '/', '/');
    let ghost segs = split_seq(path@.skip(1), '/', '/');
    assert(v@.subrange(1, n as int) =~= path@.skip(1));
    let mut out: Vec<PathParam<'a>> = Vec::new();
    let mut i: usize = 0;
    assert(segs.take(0) =~= Seq::<Seq<char>>::empty());
    assert(path_params_view(out@) =~= Seq::<ParamModel>::empty());
    while i < ranges.len()
        invariant
            v@ == path@,
            n == v@.len(),
            n > 0,
            path@[0] == '/',
            segs == split_seq(path@.skip(1), '/', '/'),
            range_pieces(v@, ranges@) == segs,
            forall|k: int| 0 <= k < ranges@.len() ==> 1 <= #[trigger] ranges@[k].0 <= ranges@[k].1 <= n,
            i <= ranges@.len(),
            collect_path_params(segs.take(i as int)) == Ok::<Seq<ParamModel>, ParamFault>(
                path_params_view(out@),
            ),
        decreases ranges@.len() - i,
    {
        let (a, b) = ranges[i];
        let seg = path.substring_char(a, b);
        assert(seg@ == segs[i as int]);
        assert(segs.take(i + 1).drop_last() =~= segs.take(i as int));
        assert(segs.take(i + 1).last() == segs[i as int]);
        match parse_path_param(seg) {
            Ok(pp) => {
                let ghost old_out = out@;
                out.push(pp);
                assert(path_params_view(out@) =~= path_params_view(old_out).push(pp@));
            },
            Err(e) => {
                proof {
                    lemma_collect_path_err(segs, i + 1, e@);
                }
                return Err(PathsError::from(e));
            },
        }
        i = i + 1;
    }
    assert(segs.take(i as int) =~= segs);
    Ok(out)
}

/// Parses one query parameter `name=data_type`.
pub fn parse_query_param<'a>(query: &'a str) -> (r: Result<QueryParam<'a>, QueryParamError>)
    ensures
        (match r {
            Ok(v) => Ok(v@),
            Err(e) => Err(e@),
        }) == spec_query_param(query@),
{
    let v = chars_of(query);
    if v.len() == 0 {
        return Err(QueryParamError::EmptyParam);
    }
    let parts = split_range(&v, 0, v.len(), '=', '=');
    assert(v@.subrange(0, v@.len() as int) =~= query@);
    if parts.len() == 2 {
        let (a0, b0) = parts[0];
        let (a1, b1) = parts[1];
        Ok(QueryParam { name: query.substring_char(a0, b0), data_type: query.substring_char(a1, b1) })
    } else {
        Err(QueryParamError::IllFormedParam(String::from_str(query)))
    }
}

/// Parses a query string `a=b&c=d` into its parameters, in order.
pub fn parse_api_queries<'a>(queries: &'a str) -> (r: Result<Vec<QueryParam<'a>>, QueriesError>)
    ensures
        (match r {
            Ok(v) => Ok(query_params_view(v@)),
            Err(e) => Err(e@),
        }) == spec_api_queries(queries@),
{
    let v = chars_of(queries);
    let n = v.len();
    if n == 0 {
        return Err(QueriesError::EmptyQueries);
    }
    let ranges = split_range(&v, 0, n, '&', '&');
    let ghost segs = split_seq(queries@, '&', '&');
    assert(v@.subrange(0, n as int) =~= queries@);
    let mut out: Vec<QueryParam<'a>> = Vec::new();
    let mut i: usize = 0;
    assert(segs.take(0) =~= Seq::<Seq<char>>::empty());
    assert(query_params_view(out@) =~= Seq::<ParamModel>::empty());
    while i < ranges.len()
        invariant
            v@ == queries@,
            n == v@.len(),
            n > 0,
            segs == split_seq(queries@, '&', '&'),
            range_pieces(v@, ranges@) == segs,
            forall|k: int| 0 <= k < ranges@.len() ==> 0 <= #[trigger] ranges@[k].0 <= ranges@[k].1 <= n,
            i <= ranges@.len(),
            collect_query_params(segs.take(i as int)) == Ok::<Seq<ParamModel>, ParamFault>(
                query_params_view(out@),
            ),
        decreases ranges@.len() - i,
    {
        let (a, b) = ranges[i];
        let seg = queries.substring_char(a, b);
        assert(seg@ == segs[i as int]);
        assert(segs.take(i + 1).drop_last() =~= segs.take(i as int));
        assert(segs.take(i + 1).last() == segs[i as int]);
        match parse_query_param(seg) {
            Ok(qp) => {
                let ghost old_out = out@;
                out.push(qp);
                assert(query_params_view(out@) =~= query_params_view(old_out).push(qp@));
            },
            Err(e) => {
                proof {
                    lemma_collect_query_err(segs, i + 1, e@);
                }
                return Err(QueriesError::from(e));
            },
        }
        i = i + 1;
    }
    assert(segs.take(i as int) =~= segs);
    Ok(out)
}

// ---------------------------------------------------------------------
// Whole API descriptions
// ---------------------------------------------------------------------

/// `t` holds `w` at position `s`.
pub open spec fn has_at(t: Seq<char>, s: int, w: Seq<char>) -> bool {
    0 <= s && s + w.len() <= t.len() && t.subrange(s, s + w.len()) == w
}

pub open spec fn https_prefix() -> Seq<char> {
    seq!['h', 't', 't', 'p', 's', ':', '/', '/']
}

pub open spec fn http_prefix() -> Seq<char> {
    seq!['h', 't', 't', 'p', ':', '/', '/']
}

/// End of the `http://` or `https://` that starts at `s`.
pub open spec fn scheme_end(t: Seq<char>, s: int) -> Option<int> {
    if has_at(t, s, https_prefix()) {
        Some(s + 8)
    } else if has_at(t, s, http_prefix()) {
        Some(s + 7)
    } else {
        None
    }
}

/// No white space from `s` to the end of `t`.
pub open spec fn no_space_from(t: Seq<char>, s: int) -> bool {
    forall|i: int| s <= i < t.len() ==> !is_space(#[trigger] t[i])
}

/// The paths can start with the `/` at `q`: one or more characters other
/// than `?` follow it, and a `?` after them is followed by the queries.
pub open spec fn paths_can_start(t: Seq<char>, q: int) -> bool {
    &&& 0 <= q
    &&& q + 1 < t.len()
    &&& t[q] == '/'
    &&& t[q + 1] != '?'
    &&& (first_from(t, q + 1, '?') == t.len() || first_from(t, q + 1, '?') + 1 < t.len())
}

/// The first position at or after `q` where the paths can start.
pub open spec fn paths_start_from(t: Seq<char>, q: int) -> Option<int>
    decreases t.len() - q,
{
    if q >= t.len() || q < 0 {
        None
    } else if paths_can_start(t, q) {
        Some(q)
    } else {
        paths_start_from(t, q + 1)
    }
}

/// A description that starts at `s` and runs to the end of `t`, as the
/// positions of the `|`, of the `/` that starts the paths and of the `?`
/// before the queries (the length of `t` when there are none). The base
/// and the version are the shortest that fit, the paths the longest.
pub open spec fn api_match_at(t: Seq<char>, s: int) -> Option<(int, int, int)> {
    if !no_space_from(t, s) {
        None
    } else {
        match scheme_end(t, s) {
            None => None,
            Some(b) => {
                let p = first_from(t, b + 1, '|');
                if p >= t.len() {
                    None
                } else {
                    match paths_start_from(t, p + 2) {
                        None => None,
                        Some(q) => Some((p, q, first_from(t, q + 1, '?'))),
                    }
                }
            },
        }
    }
}

/// The leftmost description in `t` at or after `s`: `(start, bar, slash, question)`.
pub open spec fn api_match_from(t: Seq<char>, s: int) -> Option<(int, int, int, int)>
    decreases t.len() - s,
{
    if s >= t.len() || s < 0 {
        None
    } else {
        match api_match_at(t, s) {
            Some((p, q, r)) => Some((s, p, q, r)),
            None => api_match_from(t, s + 1),
        }
    }
}

/// What an API description parses to; `None` where it does not describe
/// an API (no match, or paths or queries refused).
pub open spec fn spec_api_url(u: Seq<char>) -> Option<ApiGetModel> {
    let t = trim(u);
    match api_match_from(t, 0) {
        None => None,
        Some((s, p, q, r)) => match spec_api_path(t.subrange(q, r)) {
            Err(_) => None,
            Ok(paths) => if r < t.len() {
                match spec_api_queries(t.subrange(r + 1, t.len() as int)) {
                    Err(_) => None,
                    Ok(qs) => Some(
                        ApiGetModel {
                            url: t.subrange(s, p),
                            ver: t.subrange(p + 1, q),
                            paths,
                            queries: Some(qs),
                        },
                    ),
                }
            } else {
                Some(
                    ApiGetModel {
                        url: t.subrange(s, p),
                        ver: t.subrange(p + 1, q),
                        paths,
                        queries: None,
                    },
                )
            },
        },
    }
}

/// Executable `has_at` for the two scheme prefixes.
fn has_at_exec(t: &Vec<char>, s: usize, secure: bool) -> (r: bool)
    requires
        s <= t@.len(),
    ensures
        r == has_at(t@, s as int, if secure { https_prefix() } else { http_prefix() }),
{
    let ghost w = if secure { https_prefix() } else { http_prefix() };
    let len: usize = if secure { 8 } else { 7 };
    if t.len() - s < len {
        return false;
    }
    let ok = t[s] == 'h' && t[s + 1] == 't' && t[s + 2] == 't' && t[s + 3] == 'p' && if secure {
        t[s + 4] == 's' && t[s + 5] == ':' && t[s + 6] == '/' && t[s + 7] == '/'
    } else {
        t[s + 4] == ':' && t[s + 5] == '/' && t[s + 6] == '/'
    };
    if ok {
        assert(t@.subrange(s as int, s + w.len()) =~= w);
    } else {
        assert(t@.subrange(s as int, s + w.len()) != w) by {
            let sub = t@.subrange(s as int, s + w.len());
            assert(!(sub[0] == w[0] && sub[1] == w[1] && sub[2] == w[2] && sub[3] == w[3]
                && sub[4] == w[4] && sub[5] == w[5] && sub[6] == w[6] && (secure ==> sub[7]
                == w[7])));
        }
    }
    ok
}

/// Executable `no_space_from`.
fn no_space_from_exec(t: &Vec<char>, s: usize) -> (r: bool)
    requires
        s <= t@.len(),
    ensures
        r == no_space_from(t@, s as int),
{
    let mut i = s;
    while i < t.len()
        invariant
            s <= i <= t@.len(),
            forall|k: int| s <= k < i ==> !is_space(#[trigger] t@[k]),
        decreases t@.len() - i,
    {
        if is_space_char(t[i]) {
            return false;
        }
        i = i + 1;
    }
    true
}

/// Executable `paths_start_from`.
fn paths_start_exec(t: &Vec<char>, q0: usize) -> (r: Option<usize>)
    requires
        q0 <= t@.len(),
    ensures
        r is None <==> paths_start_from(t@, q0 as int) is None,
        r matches Some(q) ==> paths_start_from(t@, q0 as int) == Some(q as int),
        r matches Some(q) ==> q0 <= q && q + 1 < t@.len(),
{
    let n = t.len();
    let mut q = q0;
    while q < n
        invariant
            n == t@.len(),
            q0 <= q <= n,
            paths_start_from(t@, q0 as int) == paths_start_from(t@, q as int),
        decreases n - q,
    {
        if q + 1 < n && t[q] == '/' && t[q + 1] != '?' {
            let r = find_from(t, q + 1, '?');
            if r == n || (r < n && n - r > 1) {
                return Some(q);
            }
        }
        q = q + 1;
    }
    None
}

/// Executable `api_match_from(t, 0)`.
fn api_match(t: &Vec<char>) -> (r: Option<(usize, usize, usize, usize)>)
    ensures
        r is None <==> api_match_from(t@, 0) is None,
        r matches Some((s, p, q, rr)) ==> api_match_from(t@, 0) == Some(
            (s as int, p as int, q as int, rr as int),
        ),
        r matches Some((s, p, q, rr)) ==> s < p && p + 2 <= q && q + 1 < rr + 1 && rr <= t@.len(),
{
    let n = t.len();
    let mut s: usize = 0;
    while s < n
        invariant
            n == t@.len(),
            s <= n,
            api_match_from(t@, 0) == api_match_from(t@, s as int),
        decreases n - s,
    {
        if no_space_from_exec(t, s) {
            let b: usize;
            let mut found = true;
            if has_at_exec(t, s, true) {
                b = s + 8;
            } else if has_at_exec(t, s, false) {
                b = s + 7;
            } else {
                b = s;
                found = false;
            }
            if found && b < n {
                let p = find_from(t, b + 1, '|');
                proof {
                    lemma_first_from(t@, b + 1, '|');
                }
                if p < n && n - p >= 2 {
                    match paths_start_exec(t, p + 2) {
                        Some(q) => {
                            let rr = find_from(t, q + 1, '?');
                            proof {
                                lemma_first_from(t@, q + 1, '?');
                            }
                            return Some((s, p, q, rr));
                        },
                        None => {},
                    }
                } else if p < n {
                    assert(paths_start_from(t@, p + 2) is None);
                }
            }
        }
        s = s + 1;
    }
    None
}

/// Parses an API description `<base>|<version><paths>[?<queries>]`
/// (white space around it is ignored); `None` where it is not one, or
/// where its paths or queries are refused.
#[verifier::rlimit(60)]
pub fn try_parse_api_url<'a>(url: &'a str) -> (r: Option<ApiGet<'a>>)
    ensures
        (match r {
            Some(a) => Some(a@),
            None => None,
        }) == spec_api_url(url@),
{
    let v = chars_of(url);
    let (lo, hi) = trim_range(&v, 0, v.len());
    assert(v@.subrange(0, v@.len() as int) =~= url@);
    let mut t: Vec<char> = Vec::new();
    let mut i = lo;
    while i < hi
        invariant
            lo <= i <= hi,
            hi <= v@.len(),
            t@ == v@.subrange(lo as int, i as int),
        decreases hi - i,
    {
        t.push(v[i]);
        i = i + 1;
        assert(t@ =~= v@.subrange(lo as int, i as int));
    }
    let ghost tt = trim(url@);
    assert(t@ == tt);
    match api_match(&t) {
        None => None,
        Some((s, p, q, r)) => {
            let n = t.len();
            let paths_text = url.substring_char(lo + q, lo + r);
            assert(paths_text@ =~= tt.subrange(q as int, r as int));
            let paths = match parse_api_path(paths_text) {
                Ok(x) => x,
                Err(_) => {
                    return None;
                },
            };
            let queries = if r < n {
                let queries_text = url.substring_char(lo + r + 1, lo + n);
                assert(queries_text@ =~= tt.subrange(r + 1, n as int));
                match parse_api_queries(queries_text) {
                    Ok(x) => Some(x),
                    Err(_) => {
                        return None;
                    },
                }
            } else {
                None
            };
            let base = url.substring_char(lo + s, lo + p);
            let ver = url.substring_char(lo + p + 1, lo + q);
            assert(base@ =~= tt.subrange(s as int, p as int));
            assert(ver@ =~= tt.subrange(p + 1, q as int));
            Some(ApiGet { url: base, ver, paths, queries })
        },
    }
}

/// Parses an API description `<base>|<version><paths>[?<queries>]`; the
/// text must be one whose paths and queries are accepted.
pub fn parse_api_url<'a>(url: &'a str) -> (r: ApiGet<'a>)
    requires
        spec_api_url(url@) is Some,
    ensures
        Some(r@) == spec_api_url(url@),
{
    let parsed = try_parse_api_url(url);
    parsed.unwrap()
}

// ---------------------------------------------------------------------
// Laws
// ---------------------------------------------------------------------

proof fn lemma_collect_paths_ok(segs: Seq<Seq<char>>)
    requires
        collect_path_params(segs) is Ok,
    ensures
        collect_path_params(segs)->Ok_0.len() == segs.len(),
        forall|i: int|
            0 <= i < segs.len() ==> spec_path_param(#[trigger] segs[i]) == Ok::<
                ParamModel,
                ParamFault,
            >(collect_path_params(segs)->Ok_0[i]),
    decreases segs.len(),
{
    if segs.len() > 0 {
        lemma_collect_paths_ok(segs.drop_last());
        let v = collect_path_params(segs)->Ok_0;
        assert forall|i: int| 0 <= i < segs.len() implies spec_path_param(#[trigger] segs[i])
            == Ok::<ParamModel, ParamFault>(v[i]) by {
            if i < segs.len() - 1 {
                assert(segs.drop_last()[i] == segs[i]);
            }
        }
    }
}

proof fn lemma_collect_queries_ok(qs: Seq<Seq<char>>)
    requires
        collect_query_params(qs) is Ok,
    ensures
        collect_query_params(qs)->Ok_0.len() == qs.len(),
        forall|i: int|
            0 <= i < qs.len() ==> spec_query_param(#[trigger] qs[i]) == Ok::<
                ParamModel,
                ParamFault,
            >(collect_query_params(qs)->Ok_0[i]),
    decreases qs.len(),
{
    if qs.len() > 0 {
        lemma_collect_queries_ok(qs.drop_last());
        let v = collect_query_params(qs)->Ok_0;
        assert forall|i: int| 0 <= i < qs.len() implies spec_query_param(#[trigger] qs[i])
            == Ok::<ParamModel, ParamFault>(v[i]) by {
            if i < qs.len() - 1 {
                assert(qs.drop_last()[i] == qs[i]);
            }
        }
    }
}

/// Law: a path is parsed segment by segment. An accepted path gives one
/// parameter for each `/`-separated segment after its leading `/`, in
/// order, each the parse of its segment alone.
pub proof fn lemma_path_parsed_by_segment(p: Seq<char>)
    requires
        spec_api_path(p) is Ok,
    ensures
        spec_api_path(p)->Ok_0.len() == split_seq(p.skip(1), '/', '/').len(),
        forall|i: int|
            0 <= i < split_seq(p.skip(1), '/', '/').len() ==> spec_path_param(
                #[trigger] split_seq(p.skip(1), '/', '/')[i],
            ) == Ok::<ParamModel, ParamFault>(spec_api_path(p)->Ok_0[i]),
{
    lemma_collect_paths_ok(split_seq(p.skip(1), '/', '/'));
}

/// Law: a query string is parsed pair by pair. An accepted query string
/// gives one parameter for each `&`-separated pair, in order, each the
/// parse of its pair alone.
pub proof fn lemma_queries_parsed_by_pair(q: Seq<char>)
    requires
        spec_api_queries(q) is Ok,
    ensures
        spec_api_queries(q)->Ok_0.len() == split_seq(q, '&', '&').len(),
        forall|i: int|
            0 <= i < split_seq(q, '&', '&').len() ==> spec_query_param(
                #[trigger] split_seq(q, '&', '&')[i],
            ) == Ok::<ParamModel, ParamFault>(spec_api_queries(q)->Ok_0[i]),
{
    lemma_collect_queries_ok(split_seq(q, '&', '&'));
}

/// Law: an accepted path parameter has a name and a data type that are
/// not empty; taken from a segment without `/`, neither holds a `/`.
pub proof fn lemma_path_param_parts(p: Seq<char>)
    requires
        spec_path_param(p) is Ok,
        forall|i: int| 0 <= i < p.len() ==> p[i] != '/',
    ensures
        spec_path_param(p)->Ok_0.0.len() > 0,
        spec_path_param(p)->Ok_0.1.len() > 0,
        forall|i: int|
            0 <= i < spec_path_param(p)->Ok_0.0.len() ==> spec_path_param(p)->Ok_0.0[i] != '/',
        forall|i: int|
            0 <= i < spec_path_param(p)->Ok_0.1.len() ==> spec_path_param(p)->Ok_0.1[i] != '/',
{
    reveal_strlit("const");
    match typed_param_from(p, 0) {
        Some((s, j, e)) => {
            lemma_typed_param_from_found(p, 0);
            lemma_typed_param_bounds(p, s);
        },
        None => {},
    }
}

proof fn lemma_typed_param_from_found(p: Seq<char>, s0: int)
    requires
        typed_param_from(p, s0) is Some,
    ensures
        ({
            let (s, j, e) = typed_param_from(p, s0)->0;
            s0 <= s && typed_param_at(p, s) == Some((j, e))
        }),
    decreases p.len() - s0,
{
    if typed_param_at(p, s0) is None {
        lemma_typed_param_from_found(p, s0 + 1);
    }
}

/// Law: every parameter of an accepted path has a name and a data type
/// that are neither empty nor hold a `/`.
pub proof fn lemma_path_params_well_formed(p: Seq<char>)
    requires
        spec_api_path(p) is Ok,
    ensures
        forall|i: int|
            0 <= i < spec_api_path(p)->Ok_0.len() ==> {
                let (name, ty) = #[trigger] spec_api_path(p)->Ok_0[i];
                &&& name.len() > 0
                &&& ty.len() > 0
                &&& forall|k: int| 0 <= k < name.len() ==> name[k] != '/'
                &&& forall|k: int| 0 <= k < ty.len() ==> ty[k] != '/'
            },
{
    let segs = split_seq(p.skip(1), '/', '/');
    let v = spec_api_path(p)->Ok_0;
    lemma_path_parsed_by_segment(p);
    lemma_split_pieces_have_no_separator(p.skip(1), '/', '/');
    assert forall|i: int| 0 <= i < v.len() implies {
        let (name, ty) = #[trigger] v[i];
        &&& name.len() > 0
        &&& ty.len() > 0
        &&& forall|k: int| 0 <= k < name.len() ==> name[k] != '/'
        &&& forall|k: int| 0 <= k < ty.len() ==> ty[k] != '/'
    } by {
        let seg = segs[i];
        assert forall|k: int| 0 <= k < seg.len() implies seg[k] != '/' by {
            assert(!is_sep(segs[i][k], '/', '/'));
        }
        lemma_path_param_parts(seg);
    }
}

/// Law: every parameter of an accepted query string has a name and a
/// data type that hold neither `=` nor `&`.
pub proof fn lemma_query_params_well_formed(q: Seq<char>)
    requires
        spec_api_queries(q) is Ok,
    ensures
        forall|i: int|
            0 <= i < spec_api_queries(q)->Ok_0.len() ==> {
                let (name, ty) = #[trigger] spec_api_queries(q)->Ok_0[i];
                &&& forall|k: int| 0 <= k < name.len() ==> name[k] != '=' && name[k] != '&'
                &&& forall|k: int| 0 <= k < ty.len() ==> ty[k] != '=' && ty[k] != '&'
            },
{
    let pairs = split_seq(q, '&', '&');
    let v = spec_api_queries(q)->Ok_0;
    lemma_queries_parsed_by_pair(q);
    lemma_split_pieces_have_no_separator(q, '&', '&');
    assert forall|i: int| 0 <= i < v.len() implies {
        let (name, ty) = #[trigger] v[i];
        &&& forall|k: int| 0 <= k < name.len() ==> name[k] != '=' && name[k] != '&'
        &&& forall|k: int| 0 <= k < ty.len() ==> ty[k] != '=' && ty[k] != '&'
    } by {
        let pair = pairs[i];
        let parts = split_seq(pair, '=', '=');
        lemma_split_pieces_have_no_separator(pair, '=', '=');
        assert(forall|k: int| 0 <= k < pair.len() ==> !is_sep(#[trigger] pairs[i][k], '&', '&'));
        lemma_split_keeps_characters(pair, '=', '=');
        assert forall|k: int| 0 <= k < parts[0].len() implies parts[0][k] != '=' && parts[0][k]
            != '&' by {
            assert(!is_sep(parts[0][k], '=', '='));
        }
        assert forall|k: int| 0 <= k < parts[1].len() implies parts[1][k] != '=' && parts[1][k]
            != '&' by {
            assert(!is_sep(parts[1][k], '=', '='));
        }
    }
}

/// Every character of a piece of a split is a character of the text.
proof fn lemma_split_keeps_characters(s: Seq<char>, c1: char, c2: char)
    ensures
        forall|k: int, i: int|
            0 <= k < split_seq(s, c1, c2).len() && 0 <= i < split_seq(s, c1, c2)[k].len()
                ==> s.contains(#[trigger] split_seq(s, c1, c2)[k][i]),
    decreases s.len(),
{
    if s.len() > 0 {
        lemma_split_keeps_characters(s.drop_last(), c1, c2);
        lemma_split_pieces_have_no_separator(s.drop_last(), c1, c2);
        let r = split_seq(s.drop_last(), c1, c2);
        assert forall|k: int, i: int|
            0 <= k < split_seq(s, c1, c2).len() && 0 <= i < split_seq(s, c1, c2)[k].len()
                implies s.contains(#[trigger] split_seq(s, c1, c2)[k][i]) by {
            if k < r.len() && i < r[k].len() {
                let c = r[k][i];
                assert(s.drop_last().contains(c));
                let w = choose|w: int| 0 <= w < s.drop_last().len() && s.drop_last()[w] == c;
                assert(s[w] == c);
            } else {
                assert(split_seq(s, c1, c2)[k][i] == s.last());
                assert(s[s.len() - 1] == s.last());
            }
        }
    }
}

/// Law: white space around a description does not change what it parses
/// to.
pub proof fn lemma_api_url_ignores_surrounding_space(u: Seq<char>)
    ensures
        spec_api_url(trim(u)) == spec_api_url(u),
{
    lemma_trim_idempotent(u);
}

proof fn lemma_api_match_from_found(t: Seq<char>, s0: int)
    requires
        api_match_from(t, s0) is Some,
    ensures
        ({
            let (s, p, q, r) = api_match_from(t, s0)->0;
            s0 <= s && api_match_at(t, s) == Some((p, q, r))
        }),
    decreases t.len() - s0,
{
    if api_match_at(t, s0) is None {
        lemma_api_match_from_found(t, s0 + 1);
    }
}

proof fn lemma_paths_start_found(t: Seq<char>, q0: int)
    requires
        paths_start_from(t, q0) is Some,
    ensures
        q0 <= paths_start_from(t, q0)->0,
        paths_can_start(t, paths_start_from(t, q0)->0),
    decreases t.len() - q0,
{
    if !paths_can_start(t, q0) {
        lemma_paths_start_found(t, q0 + 1);
    }
}

/// Law: the base of an accepted description starts with `http://` or
/// `https://` and holds at least one more character, its version is not
/// empty, and none of its parts holds white space.
pub proof fn lemma_api_url_parts(u: Seq<char>)
    requires
        spec_api_url(u) is Some,
    ensures
        ({
            let m = spec_api_url(u)->0;
            &&& (m.url.len() > 7 && m.url.take(7) == http_prefix()) || (m.url.len() > 8
                && m.url.take(8) == https_prefix())
            &&& m.ver.len() > 0
            &&& forall|i: int| 0 <= i < m.url.len() ==> !is_space(#[trigger] m.url[i])
            &&& forall|i: int| 0 <= i < m.ver.len() ==> !is_space(#[trigger] m.ver[i])
        }),
{
    let t = trim(u);
    lemma_api_match_from_found(t, 0);
    let (s, p, q, r) = api_match_from(t, 0)->0;
    let b = scheme_end(t, s)->0;
    lemma_first_from(t, b + 1, '|');
    lemma_paths_start_found(t, p + 2);
    let m = spec_api_url(u)->0;
    assert(m.url == t.subrange(s, p));
    if has_at(t, s, https_prefix()) {
        assert(m.url.take(8) =~= t.subrange(s, s + 8));
    } else {
        assert(m.url.take(7) =~= t.subrange(s, s + 7));
    }
    assert forall|i: int| 0 <= i < m.url.len() implies !is_space(#[trigger] m.url[i]) by {
        assert(m.url[i] == t[s + i]);
    }
    assert forall|i: int| 0 <= i < m.ver.len() implies !is_space(#[trigger] m.ver[i]) by {
        assert(m.ver[i] == t[p + 1 + i]);
    }
}

proof fn lemma_no_typed_param(p: Seq<char>, s: int)
    requires
        forall|i: int| 0 <= i < p.len() ==> p[i] != '{',
    ensures
        typed_param_from(p, s) is None,
    decreases p.len() - s,
{
    if 0 <= s < p.len() {
        lemma_no_typed_param(p, s + 1);
    }
}

/// Law: a segment that is not empty and holds none of `{`, `}` and `,` is
/// a constant: its name is the whole segment and its data type `const`.
pub proof fn lemma_plain_segment_is_const(p: Seq<char>)
    requires
        p.len() > 0,
        forall|i: int| 0 <= i < p.len() ==> p[i] != '{' && p[i] != '}' && p[i] != ',',
    ensures
        spec_path_param(p) == Ok::<ParamModel, ParamFault>((p, "const"@)),
{
    lemma_no_typed_param(p, 0);
}

proof fn lemma_collect_paths_all_ok(segs: Seq<Seq<char>>)
    requires
        forall|i: int| 0 <= i < segs.len() ==> spec_path_param(#[trigger] segs[i]) is Ok,
    ensures
        collect_path_params(segs) == Ok::<Seq<ParamModel>, ParamFault>(
            Seq::new(segs.len(), |i: int| spec_path_param(segs[i])->Ok_0),
        ),
    decreases segs.len(),
{
    if segs.len() > 0 {
        let init = segs.drop_last();
        assert forall|i: int| 0 <= i < init.len() implies spec_path_param(#[trigger] init[i]) is Ok by {
            assert(init[i] == segs[i]);
        }
        lemma_collect_paths_all_ok(init);
        assert(segs.last() == segs[segs.len() - 1]);
        assert(spec_path_param(segs[segs.len() - 1]) is Ok);
        assert(Seq::new(init.len(), |i: int| spec_path_param(init[i])->Ok_0).push(
            spec_path_param(segs.last())->Ok_0,
        ) =~= Seq::new(segs.len(), |i: int| spec_path_param(segs[i])->Ok_0));
    } else {
        assert(Seq::new(segs.len(), |i: int| spec_path_param(segs[i])->Ok_0) =~= Seq::<ParamModel>::empty());
    }
}

proof fn lemma_collect_queries_all_ok(qs: Seq<Seq<char>>)
    requires
        forall|i: int| 0 <= i < qs.len() ==> spec_query_param(#[trigger] qs[i]) is Ok,
    ensures
        collect_query_params(qs) == Ok::<Seq<ParamModel>, ParamFault>(
            Seq::new(qs.len(), |i: int| spec_query_param(qs[i])->Ok_0),
        ),
    decreases qs.len(),
{
    if qs.len() > 0 {
        let init = qs.drop_last();
        assert forall|i: int| 0 <= i < init.len() implies spec_query_param(#[trigger] init[i]) is Ok by {
            assert(init[i] == qs[i]);
        }
        lemma_collect_queries_all_ok(init);
        assert(qs.last() == qs[qs.len() - 1]);
        assert(spec_query_param(qs[qs.len() - 1]) is Ok);
        assert(Seq::new(init.len(), |i: int| spec_query_param(init[i])->Ok_0).push(
            spec_query_param(qs.last())->Ok_0,
        ) =~= Seq::new(qs.len(), |i: int| spec_query_param(qs[i])->Ok_0));
    } else {
        assert(Seq::new(qs.len(), |i: int| spec_query_param(qs[i])->Ok_0) =~= Seq::<ParamModel>::empty());
    }
}

/// Law: a path that starts with `/` and whose `/`-separated segments (after
/// that `/`) are each accepted is accepted, whatever their number, and
/// parses to the list of the segments' parses, in order.
pub proof fn lemma_path_complete(p: Seq<char>)
    requires
        p.len() > 0,
        p[0] == '/',
        forall|i: int|
            0 <= i < split_seq(p.skip(1), '/', '/').len() ==> spec_path_param(
                #[trigger] split_seq(p.skip(1), '/', '/')[i],
            ) is Ok,
    ensures
        spec_api_path(p) == Ok::<Seq<ParamModel>, PathsFault>(
            Seq::new(
                split_seq(p.skip(1), '/', '/').len(),
                |i: int| spec_path_param(split_seq(p.skip(1), '/', '/')[i])->Ok_0,
            ),
        ),
{
    lemma_collect_paths_all_ok(split_seq(p.skip(1), '/', '/'));
}

/// Law: a non-empty query string whose `&`-separated pairs are each
/// accepted is accepted, whatever their number, and parses to the list of
/// the pairs' parses, in order.
pub proof fn lemma_queries_complete(q: Seq<char>)
    requires
        q.len() > 0,
        forall|i: int|
            0 <= i < split_seq(q, '&', '&').len() ==> spec_query_param(
                #[trigger] split_seq(q, '&', '&')[i],
            ) is Ok,
    ensures
        spec_api_queries(q) == Ok::<Seq<ParamModel>, QueriesFault>(
            Seq::new(
                split_seq(q, '&', '&').len(),
                |i: int| spec_query_param(split_seq(q, '&', '&')[i])->Ok_0,
            ),
        ),
{
    lemma_collect_queries_all_ok(split_seq(q, '&', '&'));
}

proof fn lemma_paths_start_is(t: Seq<char>, from: int, q: int)
    requires
        0 <= from <= q,
        forall|i: int| from <= i < q ==> !paths_can_start(t, i),
        paths_can_start(t, q),
    ensures
        paths_start_from(t, from) == Some(q),
    decreases q - from,
{
    if from < q {
        lemma_paths_start_is(t, from + 1, q);
    }
}

/// The text of a description: `base|ver` followed by the paths and, when
/// there are queries, `?` and the queries.
pub open spec fn description_text(
    base: Seq<char>,
    ver: Seq<char>,
    path: Seq<char>,
    queries: Option<Seq<char>>,
) -> Seq<char> {
    base + seq!['|'] + ver + path + match queries {
        Some(q) => seq!['?'] + q,
        None => Seq::<char>::empty(),
    }
}

/// Law: every well-formed description is matched. Take a base made of
/// `http://` or `https://` and one or more characters that are neither
/// white space nor `|` (a host, a port, a path prefix...), a version of
/// one or more characters that are neither white space nor `/`, accepted
/// paths without `?` or white space, and, optionally, accepted queries
/// without white space. The description `base|version paths[?queries]`
/// parses to exactly that base, version, paths and queries.
pub proof fn lemma_api_url_complete(
    secure: bool,
    host: Seq<char>,
    ver: Seq<char>,
    path: Seq<char>,
    queries: Option<Seq<char>>,
)
    requires
        host.len() > 0,
        forall|i: int| 0 <= i < host.len() ==> host[i] != '|' && !is_space(host[i]),
        ver.len() > 0,
        forall|i: int| 0 <= i < ver.len() ==> ver[i] != '/' && !is_space(ver[i]),
        path.len() >= 2,
        path[0] == '/',
        forall|i: int| 0 <= i < path.len() ==> path[i] != '?' && !is_space(path[i]),
        spec_api_path(path) is Ok,
        queries matches Some(q) ==> {
            &&& q.len() > 0
            &&& forall|i: int| 0 <= i < q.len() ==> !is_space(q[i])
            &&& spec_api_queries(q) is Ok
        },
    ensures
        ({
            let scheme = if secure {
                seq!['h', 't', 't', 'p', 's', ':', '/', '/']
            } else {
                seq!['h', 't', 't', 'p', ':', '/', '/']
            };
            spec_api_url(description_text(scheme + host, ver, path, queries)) == Some(
                ApiGetModel {
                    url: scheme + host,
                    ver,
                    paths: spec_api_path(path)->Ok_0,
                    queries: match queries {
                        Some(q) => Some(spec_api_queries(q)->Ok_0),
                        None => None,
                    },
                },
            )
        }),
{
    let scheme = if secure {
        seq!['h', 't', 't', 'p', 's', ':', '/', '/']
    } else {
        seq!['h', 't', 't', 'p', ':', '/', '/']
    };
    let base = scheme + host;
    let qpart = match queries {
        Some(q) => seq!['?'] + q,
        None => Seq::<char>::empty(),
    };
    let t = description_text(base, ver, path, queries);
    lemma_description_layout(t, scheme, host, ver, path, qpart);
    let sl = scheme.len() as int;
    let l = base.len() as int;
    let q = l + 1 + ver.len();
    let r = q + path.len();
    let n = t.len() as int;

    assert forall|i: int| 0 <= i < scheme.len() implies !is_space(#[trigger] scheme[i]) by {}
    lemma_description_has_no_space(t, scheme, host, ver, path, queries, qpart);
    lemma_trim_no_space(t);
    lemma_description_scheme(t, secure, scheme);
    assert forall|i: int| sl + 1 <= i < l implies t[i] != '|' by {
        assert(t[i] == t.subrange(sl, l)[i - sl]);
    }
    assert forall|i: int| l + 2 <= i < q implies t[i] != '/' by {
        assert(t[i] == t.subrange(l + 1, q)[i - l - 1]);
    }
    assert forall|i: int| q + 1 <= i < r implies t[i] != '?' by {
        assert(t[i] == t.subrange(q, r)[i - q]);
    }
    assert(t[q] == t.subrange(q, r)[0]);
    assert(t[q + 1] == t.subrange(q, r)[1]);
    if queries is Some {
        assert(t[r] == t.subrange(r, n)[0]);
    }
    lemma_description_match(t, sl, l, q, r);
    match queries {
        Some(qs) => {
            assert(t.subrange(r + 1, n) =~= t.subrange(r, n).skip(1));
            assert(qpart.skip(1) =~= qs);
        },
        None => {},
    }
    lemma_api_url_of_match(t, l, q, r);
}

proof fn lemma_description_scheme(t: Seq<char>, secure: bool, scheme: Seq<char>)
    requires
        scheme == if secure {
            seq!['h', 't', 't', 'p', 's', ':', '/', '/']
        } else {
            seq!['h', 't', 't', 'p', ':', '/', '/']
        },
        t.len() > 8,
        forall|i: int| 0 <= i < scheme.len() ==> t[i] == scheme[i],
    ensures
        scheme_end(t, 0) == Some(scheme.len() as int),
{
    if secure {
        assert(t.subrange(0, 8) =~= https_prefix());
    } else {
        assert(t.subrange(0, 8) != https_prefix()) by {
            assert(t.subrange(0, 8)[4] == t[4]);
        }
        assert(t.subrange(0, 7) =~= http_prefix());
    }
}

proof fn lemma_api_url_of_match(t: Seq<char>, l: int, q: int, r: int)
    requires
        trim(t) == t,
        api_match_from(t, 0) == Some((0int, l, q, r)),
        spec_api_path(t.subrange(q, r)) is Ok,
        r < t.len() ==> spec_api_queries(t.subrange(r + 1, t.len() as int)) is Ok,
    ensures
        spec_api_url(t) == Some(
            ApiGetModel {
                url: t.subrange(0, l),
                ver: t.subrange(l + 1, q),
                paths: spec_api_path(t.subrange(q, r))->Ok_0,
                queries: if r < t.len() {
                    Some(spec_api_queries(t.subrange(r + 1, t.len() as int))->Ok_0)
                } else {
                    None
                },
            },
        ),
{
}

proof fn lemma_description_has_no_space(
    t: Seq<char>,
    scheme: Seq<char>,
    host: Seq<char>,
    ver: Seq<char>,
    path: Seq<char>,
    queries: Option<Seq<char>>,
    qpart: Seq<char>,
)
    requires
        t == scheme + host + seq!['|'] + ver + path + qpart,
        forall|i: int| 0 <= i < scheme.len() ==> !is_space(#[trigger] scheme[i]),
        forall|i: int| 0 <= i < host.len() ==> !is_space(host[i]),
        forall|i: int| 0 <= i < ver.len() ==> !is_space(ver[i]),
        forall|i: int| 0 <= i < path.len() ==> !is_space(path[i]),
        qpart == match queries {
            Some(q) => seq!['?'] + q,
            None => Seq::<char>::empty(),
        },
        queries matches Some(q) ==> forall|i: int| 0 <= i < q.len() ==> !is_space(q[i]),
    ensures
        forall|i: int| 0 <= i < t.len() ==> !is_space(#[trigger] t[i]),
{
    lemma_description_layout(t, scheme, host, ver, path, qpart);
    let sl = scheme.len() as int;
    let l = sl + host.len();
    let q = l + 1 + ver.len();
    let r = q + path.len();
    let n = t.len() as int;
    assert forall|i: int| 0 <= i < n implies !is_space(#[trigger] t[i]) by {
        if i < sl {
            assert(t[i] == scheme[i]);
            assert(!is_space(scheme[i]));
        } else if i < l {
            assert(t[i] == t.subrange(sl, l)[i - sl]);
            assert(!is_space(host[i - sl]));
        } else if i == l {
        } else if i < q {
            assert(t[i] == t.subrange(l + 1, q)[i - l - 1]);
            assert(!is_space(ver[i - l - 1]));
        } else if i < r {
            assert(t[i] == t.subrange(q, r)[i - q]);
            assert(!is_space(path[i - q]));
        } else {
            let qs = queries->0;
            assert(t[i] == t.subrange(r, n)[i - r]);
            if i > r {
                assert(qpart[i - r] == qs[i - r - 1]);
            }
        }
    }
}

proof fn lemma_description_layout(
    t: Seq<char>,
    scheme: Seq<char>,
    host: Seq<char>,
    ver: Seq<char>,
    path: Seq<char>,
    qpart: Seq<char>,
)
    requires
        t == scheme + host + seq!['|'] + ver + path + qpart,
    ensures
        ({
            let sl = scheme.len() as int;
            let l = sl + host.len();
            let q = l + 1 + ver.len();
            let r = q + path.len();
            &&& t.len() == r + qpart.len()
            &&& t.subrange(0, sl) == scheme
            &&& t.subrange(0, l) == scheme + host
            &&& t.subrange(sl, l) == host
            &&& t[l] == '|'
            &&& t.subrange(l + 1, q) == ver
            &&& t.subrange(q, r) == path
            &&& t.subrange(r, t.len() as int) == qpart
            &&& forall|i: int| 0 <= i < sl ==> t[i] == scheme[i]
        }),
{
    let sl = scheme.len() as int;
    let l = sl + host.len();
    let q = l + 1 + ver.len();
    let r = q + path.len();
    assert(t.subrange(0, sl) =~= scheme);
    assert(t.subrange(0, l) =~= scheme + host);
    assert(t.subrange(sl, l) =~= host);
    assert(t.subrange(l + 1, q) =~= ver);
    assert(t.subrange(q, r) =~= path);
    assert(t.subrange(r, t.len() as int) =~= qpart);
}

proof fn lemma_description_match(t: Seq<char>, sl: int, l: int, q: int, r: int)
    requires
        0 < sl < l,
        l + 2 <= q,
        q + 1 < r <= t.len(),
        forall|i: int| 0 <= i < t.len() ==> !is_space(#[trigger] t[i]),
        scheme_end(t, 0) == Some(sl),
        forall|i: int| sl + 1 <= i < l ==> t[i] != '|',
        t[l] == '|',
        forall|i: int| l + 2 <= i < q ==> t[i] != '/',
        t[q] == '/',
        t[q + 1] != '?',
        forall|i: int| q + 1 <= i < r ==> t[i] != '?',
        r == t.len() || (t[r] == '?' && r + 1 < t.len()),
    ensures
        api_match_from(t, 0) == Some((0int, l, q, r)),
{
    assert(no_space_from(t, 0));
    lemma_first_from_is(t, sl + 1, '|', l);
    lemma_first_from_is(t, q + 1, '?', r);
    assert(paths_can_start(t, q));
    lemma_paths_start_is(t, l + 2, q);
    assert(api_match_at(t, 0) == Some((l, q, r)));
}

} // verus!
