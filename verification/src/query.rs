//! Listing queries: the paginator that turns a requested page into an
//! offset/limit pair, and the search-predicate builder that turns an optional
//! search string into a parameterized multi-column filter.
//!
//! A query is modelled as a sequence of [`QueryPiece`]s: literal SQL text of
//! the library's own, or a value bound as a parameter. User-supplied text
//! reaches a query only inside a bound parameter, never inside the SQL text —
//! a hard security invariant, stated by the contracts below.

use vstd::arithmetic::div_mod::lemma_fundamental_div_mod;
use vstd::arithmetic::div_mod::lemma_mod_bound;
use vstd::prelude::*;
use vstd::string::StringExecFns;

verus! {

/// The search form of a listing request: an optional search string.
pub struct SearchForm {
    pub search: Option<String>,
}

/// The page query of a listing request: an optional 1-based page number.
pub struct PageQuery {
    pub page: Option<u32>,
}

/// An offset/limit pair for one page of a listing.
pub struct Limits {
    pub offset: u64,
    pub limit: u32,
}

/// A requested page clamped to at least 1.
pub open spec fn spec_clamp_page(page: int) -> int {
    if page < 1 {
        1
    } else {
        page
    }
}

impl Limits {
    /// The offset/limit pair for the given 1-based page: `page_size` rows are
    /// skipped for every page before the requested one. A page below 1 is
    /// clamped to page 1, so the offset is never negative and page 1 starts
    /// at offset 0.
    pub fn from_page(page: u32, page_size: u32) -> (r: Limits)
        ensures
            r.offset as int == (spec_clamp_page(page as int) - 1) * page_size as int,
            r.limit == page_size,
    {
        let p: u64 = if page < 1 {
            1
        } else {
            page as u64
        };
        proof {
            assert((p - 1) * (page_size as u64) <= u64::MAX) by (nonlinear_arith)
                requires
                    0 <= p - 1 < 0x1_0000_0000,
                    page_size < 0x1_0000_0000,
            ;
        }
        Limits { offset: (p - 1) * (page_size as u64), limit: page_size }
    }
}

/// The page a listing request resolves to: the requested page, or page 1
/// when the request carries none or one below 1.
pub open spec fn spec_resolve_page(page: Option<u32>) -> int {
    match page {
        Some(n) => if n >= 1 {
            n as int
        } else {
            1
        },
        None => 1,
    }
}

/// Resolve the optional requested page number of a listing request.
pub fn resolve_page(page: Option<u32>) -> (r: u32)
    ensures
        r as int == spec_resolve_page(page),
{
    match page {
        Some(n) => if n >= 1 {
            n
        } else {
            1
        },
        None => 1,
    }
}

/// The number of pages needed for `count` rows at `page_size` rows a page:
/// `count / page_size` rounded up.
pub fn num_pages(count: u32, page_size: u32) -> (r: u32)
    requires
        page_size >= 1,
    ensures
        r as int == (count as int + page_size as int - 1) / page_size as int,
{
    let c = count as u64;
    let ps = page_size as u64;
    let d = (c + ps - 1) / ps;
    proof {
        let x: int = c as int + ps as int - 1;
        lemma_fundamental_div_mod(x, ps as int);
        lemma_mod_bound(x, ps as int);
        assert(d as int == x / (ps as int));
        assert(x >= (ps as int) * (d as int));
        let m = u32::MAX as int;
        if d as int > m {
            assert((d as int) * (ps as int) >= (m + 1) * (ps as int)) by (nonlinear_arith)
                requires
                    d as int >= m + 1,
                    ps as int >= 1,
            ;
            assert((m + 1) * (ps as int) >= m + ps as int) by (nonlinear_arith)
                requires
                    ps as int >= 1,
                    m >= 0,
            ;
            assert(false);
        }
    }
    d as u32
}

// ---------------------------------------------------------------------------
// The search predicate and the listing queries, as sequences of pieces.
// ---------------------------------------------------------------------------

/// One piece of a listing query: literal SQL text of the library's own, or a
/// value bound as a parameter.
#[derive(Debug, Clone, PartialEq)]
pub enum QueryPiece {
    Sql(String),
    BindText(String),
    BindUint(u64),
}

/// Model of a [`QueryPiece`].
#[verifier::ext_equal]
pub enum QueryPieceModel {
    Sql(Seq<char>),
    BindText(Seq<char>),
    BindUint(u64),
}

impl View for QueryPiece {
    type V = QueryPieceModel;

    open spec fn view(&self) -> QueryPieceModel {
        match self {
            QueryPiece::Sql(s) => QueryPieceModel::Sql(s@),
            QueryPiece::BindText(s) => QueryPieceModel::BindText(s@),
            QueryPiece::BindUint(v) => QueryPieceModel::BindUint(*v),
        }
    }
}

/// Model of a whole piece sequence.
pub open spec fn pieces_model(ps: Seq<QueryPiece>) -> Seq<QueryPieceModel> {
    ps.map_values(|p: QueryPiece| p@)
}

/// The characters of an optional search string.
pub open spec fn opt_search_model(search: Option<&str>) -> Option<Seq<char>> {
    match search {
        Some(s) => Some(s@),
        None => None,
    }
}

/// An empty search string is the same as no search at all.
pub open spec fn spec_normalize(search: Option<Seq<char>>) -> Option<Seq<char>> {
    match search {
        Some(s) => if s.len() == 0 {
            None
        } else {
            Some(s)
        },
        None => None,
    }
}

/// The text `str::to_uppercase` returns for the given characters: a function
/// of the characters alone.
pub uninterp spec fn upper_of(s: Seq<char>) -> Seq<char>;

/// Relies on `str::to_uppercase`: the returned string is the input's
/// uppercase equivalent, determined by the input's characters alone, and is
/// empty for an empty input.
#[verifier::external_body]
fn uppercase(s: &str) -> (r: String)
    ensures
        r@ == upper_of(s@),
        s@.len() == 0 ==> r@.len() == 0,
{
    s.to_uppercase()
}

/// The pattern a search text is matched with: the uppercased text between
/// `%` wildcards.
pub open spec fn spec_like_pattern(s: Seq<char>) -> Seq<char> {
    "%"@ + upper_of(s) + "%"@
}

/// Build the bound `LIKE` pattern for a search text.
fn like_pattern(search: &str) -> (r: String)
    ensures
        r@ == spec_like_pattern(search@),
{
    let u = uppercase(search);
    let mut p = String::from_str("%");
    p.append(u.as_str());
    p.append("%");
    p
}

/// The six case-insensitive column filters for a search text. The SQL text
/// pieces are fixed literals; the search text appears only in the bound
/// parameters.
pub open spec fn spec_filter_pieces(s: Seq<char>) -> Seq<QueryPieceModel> {
    seq![
        QueryPieceModel::Sql(" WHERE cast(id as text) LIKE "@),
        QueryPieceModel::BindText(spec_like_pattern(s)),
        QueryPieceModel::Sql(" OR upper(prompt) LIKE "@),
        QueryPieceModel::BindText(spec_like_pattern(s)),
        QueryPieceModel::Sql(" OR upper(negative_prompt) LIKE "@),
        QueryPieceModel::BindText(spec_like_pattern(s)),
        QueryPieceModel::Sql(" OR upper(sampler) LIKE "@),
        QueryPieceModel::BindText(spec_like_pattern(s)),
        QueryPieceModel::Sql(" OR upper(model_hash) LIKE "@),
        QueryPieceModel::BindText(spec_like_pattern(s)),
        QueryPieceModel::Sql(" OR upper(model) LIKE "@),
        QueryPieceModel::BindText(spec_like_pattern(s)),
    ]
}

/// Append the six case-insensitive column filters for `search` to `query`.
/// User-supplied text goes only into bound parameters, never into the SQL
/// text.
pub fn add_filter_to_query(query: &mut Vec<QueryPiece>, search: &str)
    ensures
        pieces_model(final(query)@) == pieces_model(old(query)@) + spec_filter_pieces(search@),
{
    let pattern = like_pattern(search);
    query.push(QueryPiece::Sql(String::from_str(" WHERE cast(id as text) LIKE ")));
    query.push(QueryPiece::BindText(pattern.clone()));
    query.push(QueryPiece::Sql(String::from_str(" OR upper(prompt) LIKE ")));
    query.push(QueryPiece::BindText(pattern.clone()));
    query.push(QueryPiece::Sql(String::from_str(" OR upper(negative_prompt) LIKE ")));
    query.push(QueryPiece::BindText(pattern.clone()));
    query.push(QueryPiece::Sql(String::from_str(" OR upper(sampler) LIKE ")));
    query.push(QueryPiece::BindText(pattern.clone()));
    query.push(QueryPiece::Sql(String::from_str(" OR upper(model_hash) LIKE ")));
    query.push(QueryPiece::BindText(pattern.clone()));
    query.push(QueryPiece::Sql(String::from_str(" OR upper(model) LIKE ")));
    query.push(QueryPiece::BindText(pattern));
    proof {
        assert(pieces_model(query@) =~= pieces_model(old(query)@) + spec_filter_pieces(
            search@,
        ));
    }
}

/// The counting query for a listing: how many records match the search.
pub open spec fn spec_count_query(search: Option<Seq<char>>) -> Seq<QueryPieceModel> {
    let base = seq![QueryPieceModel::Sql("SELECT count(*) FROM image"@)];
    match search {
        None => base,
        Some(s) => base + spec_filter_pieces(s),
    }
}

/// Build the counting query for an optional search string. An empty search
/// string filters exactly like an absent one.
pub fn build_count_query(search: Option<&str>) -> (r: Vec<QueryPiece>)
    ensures
        pieces_model(r@) == spec_count_query(spec_normalize(opt_search_model(search))),
{
    let mut q: Vec<QueryPiece> = Vec::new();
    q.push(QueryPiece::Sql(String::from_str("SELECT count(*) FROM image")));
    match search {
        None => {},
        Some(s) => {
            if !s.is_empty() {
                add_filter_to_query(&mut q, s);
            }
        },
    }
    proof {
        assert(pieces_model(q@) =~= spec_count_query(spec_normalize(opt_search_model(search))));
    }
    q
}

/// The row query for one page of a listing: the matching records, newest
/// first with the identifier as a deterministic tiebreak, one page's worth
/// from the page's offset.
pub open spec fn spec_select_query(search: Option<Seq<char>>, limit: u32, offset: u64) -> Seq<
    QueryPieceModel,
> {
    let base = seq![
        QueryPieceModel::Sql(
            "SELECT id, prompt, negative_prompt, steps, sampler, cfg_scale, seed, width, height, model_hash, model, clip_skip, file_path, created_at FROM image"@,
        ),
    ];
    let filtered = match search {
        None => base,
        Some(s) => base + spec_filter_pieces(s),
    };
    filtered + seq![
        QueryPieceModel::Sql(" ORDER BY created_at DESC, id DESC"@),
        QueryPieceModel::Sql(" LIMIT "@),
        QueryPieceModel::BindUint(limit as u64),
        QueryPieceModel::Sql(" OFFSET "@),
        QueryPieceModel::BindUint(offset),
    ]
}

/// Build the row query for one page of a listing with an optional search
/// string. An empty search string filters exactly like an absent one.
pub fn build_select_query(search: Option<&str>, limits: &Limits) -> (r: Vec<QueryPiece>)
    ensures
        pieces_model(r@) == spec_select_query(
            spec_normalize(opt_search_model(search)),
            limits.limit,
            limits.offset,
        ),
{
    let mut q: Vec<QueryPiece> = Vec::new();
    q.push(
        QueryPiece::Sql(
            String::from_str(
                "SELECT id, prompt, negative_prompt, steps, sampler, cfg_scale, seed, width, height, model_hash, model, clip_skip, file_path, created_at FROM image",
            ),
        ),
    );
    match search {
        None => {},
        Some(s) => {
            if !s.is_empty() {
                add_filter_to_query(&mut q, s);
            }
        },
    }
    proof {
        let sm = spec_normalize(opt_search_model(search));
        assert(pieces_model(q@) =~= (match sm {
            None => seq![
                QueryPieceModel::Sql(
                    "SELECT id, prompt, negative_prompt, steps, sampler, cfg_scale, seed, width, height, model_hash, model, clip_skip, file_path, created_at FROM image"@,
                ),
            ],
            Some(s) => seq![
                QueryPieceModel::Sql(
                    "SELECT id, prompt, negative_prompt, steps, sampler, cfg_scale, seed, width, height, model_hash, model, clip_skip, file_path, created_at FROM image"@,
                ),
            ] + spec_filter_pieces(s),
        }));
    }
    let ghost mid = pieces_model(q@);
    q.push(QueryPiece::Sql(String::from_str(" ORDER BY created_at DESC, id DESC")));
    q.push(QueryPiece::Sql(String::from_str(" LIMIT ")));
    q.push(QueryPiece::BindUint(limits.limit as u64));
    q.push(QueryPiece::Sql(String::from_str(" OFFSET ")));
    q.push(QueryPiece::BindUint(limits.offset));
    proof {
        let sm = spec_normalize(opt_search_model(search));
        let target = spec_select_query(sm, limits.limit, limits.offset);
        assert(pieces_model(q@) =~= mid + seq![
            QueryPieceModel::Sql(" ORDER BY created_at DESC, id DESC"@),
            QueryPieceModel::Sql(" LIMIT "@),
            QueryPieceModel::BindUint(limits.limit as u64),
            QueryPieceModel::Sql(" OFFSET "@),
            QueryPieceModel::BindUint(limits.offset),
        ]);
        assert(pieces_model(q@) =~= target);
    }
    q
}

/// Law: an empty search string and an absent one build the very same
/// queries, so they produce identical row sets over any fixed record store.
pub proof fn lemma_empty_search_like_absent(limit: u32, offset: u64)
    ensures
        spec_count_query(spec_normalize(Some(Seq::<char>::empty()))) == spec_count_query(
            spec_normalize(None),
        ),
        spec_select_query(spec_normalize(Some(Seq::<char>::empty())), limit, offset)
            == spec_select_query(spec_normalize(None), limit, offset),
{
}

/// Law: the SQL text of the search filter is the same whatever the search
/// text; user input changes only the bound parameters. Together with the
/// builders' contracts this is the injection-safety invariant.
pub proof fn lemma_filter_sql_fixed(s1: Seq<char>, s2: Seq<char>)
    ensures
        spec_filter_pieces(s1).len() == spec_filter_pieces(s2).len(),
        forall|k: int|
            0 <= k < spec_filter_pieces(s1).len() ==> ((#[trigger] spec_filter_pieces(s1)[k])
                is Sql <==> (#[trigger] spec_filter_pieces(s2)[k]) is Sql),
        forall|k: int|
            0 <= k < spec_filter_pieces(s1).len() && (#[trigger] spec_filter_pieces(s1)[k])
                is Sql ==> spec_filter_pieces(s1)[k] == spec_filter_pieces(s2)[k],
{
}

} // verus!
