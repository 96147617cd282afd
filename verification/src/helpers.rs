//! Request-shaping helpers: pagination arithmetic, search and sort
//! parameter parsing, date range checks, error response shaping, and
//! small string transformations.

use vstd::prelude::*;

use std::collections::HashMap;

use vstd::string::StringExecFns;

use crate::text::{
    is_alnum, is_space, lower_char, str_chars, trim_chars, chars_to_string,
};

verus! {

/// The page number actually used for a requested page.
pub open spec fn norm_page(page: Option<u32>) -> int {
    match page {
        Option::None => 1,
        Option::Some(p) => if p < 1 {
            1
        } else {
            p as int
        },
    }
}

/// The page size actually used for a requested size: clamped to 1..=100,
/// defaulting to 20.
pub open spec fn norm_page_size(page_size: Option<u32>) -> int {
    match page_size {
        Option::None => 20,
        Option::Some(p) => if p < 1 {
            1
        } else if p > 100 {
            100
        } else {
            p as int
        },
    }
}

/// Pagination settings derived from the request's query parameters.
#[derive(Debug, Clone)]
pub struct PaginationParams {
    pub page: u32,
    pub page_size: u32,
    pub offset: u32,
}

impl Default for PaginationParams {
    /// The first page of twenty items.
    fn default() -> (r: Self)
        ensures
            r.page == 1,
            r.page_size == 20,
            r.offset == 0,
    {
        PaginationParams { page: 1, page_size: 20, offset: 0 }
    }
}

impl PaginationParams {
    /// Normalizes the requested page and size and computes the row offset.
    pub fn new(page: Option<u32>, page_size: Option<u32>) -> (r: Self)
        requires
            (norm_page(page) - 1) * norm_page_size(page_size) <= u32::MAX,
        ensures
            r.page == norm_page(page),
            r.page_size == norm_page_size(page_size),
            r.offset == (norm_page(page) - 1) * norm_page_size(page_size),
    {
        let p: u32 = match page {
            Option::Some(p) => if p < 1 {
                1
            } else {
                p
            },
            Option::None => 1,
        };
        let ps: u32 = match page_size {
            Option::Some(v) => if v < 1 {
                1
            } else if v > 100 {
                100
            } else {
                v
            },
            Option::None => 20,
        };
        let offset: u32 = (p - 1) * ps;
        PaginationParams { page: p, page_size: ps, offset }
    }

    /// How many pages `total_items` fill at `page_size` items per page:
    /// the quotient rounded up, saturating at `u32::MAX`, with an empty
    /// zero-size request giving zero pages.
    pub fn calculate_total_pages(total_items: u64, page_size: u32) -> (r: u32)
        ensures
            page_size == 0 && total_items == 0 ==> r == 0,
            page_size == 0 && total_items > 0 ==> r == u32::MAX,
            page_size > 0 ==> r == spec_ceil_div_capped(total_items as int, page_size as int),
    {
        if page_size == 0 {
            if total_items == 0 {
                0
            } else {
                u32::MAX
            }
        } else {
            let q: u64 = total_items / (page_size as u64);
            let rem: u64 = total_items % (page_size as u64);
            let pages: u64 = if rem > 0 {
                proof {
                    vstd::arithmetic::div_mod::lemma_fundamental_div_mod(
                        total_items as int,
                        page_size as int,
                    );
                    assert(q < u64::MAX) by (nonlinear_arith)
                        requires
                            total_items as int == (page_size as int) * (q as int) + (rem as int),
                            rem >= 1,
                            page_size >= 1,
                            q >= 0,
                            total_items <= u64::MAX,
                    ;
                }
                q + 1
            } else {
                q
            };
            if pages > (u32::MAX as u64) {
                u32::MAX
            } else {
                pages as u32
            }
        }
    }
}

/// The ceiling of `total / size`, capped at `u32::MAX`; `size` positive.
pub open spec fn spec_ceil_div_capped(total: int, size: int) -> int {
    let q = total / size + (if total % size > 0 {
        1int
    } else {
        0int
    });
    if q > u32::MAX {
        u32::MAX as int
    } else {
        q
    }
}

/// A page of results together with how it sits in the whole.
#[derive(Debug)]
pub struct PaginatedResponse<T> {
    pub data: Vec<T>,
    pub pagination: PaginationInfo,
}

/// Position of a returned page within the full result set.
#[derive(Debug)]
pub struct PaginationInfo {
    pub current_page: u32,
    pub page_size: u32,
    pub total_items: u64,
    pub total_pages: u32,
    pub has_next: bool,
    pub has_previous: bool,
}

/// Query parameter parsing.
pub struct QueryUtils;

/// A free-text search with optional keyed filters.
#[derive(Debug, Clone)]
pub struct SearchParams {
    pub query: Option<String>,
    pub filters: HashMap<String, String>,
}

/// A sort field and direction.
#[derive(Debug, Clone)]
pub struct SortParams {
    pub field: String,
    pub direction: SortDirection,
}

/// Sort order of a listing.
#[derive(Debug, Clone, PartialEq, Eq, Structural)]
pub enum SortDirection {
    Asc,
    Desc,
}

impl SortDirection {
    /// The SQL keyword for this direction.
    pub fn as_sql(&self) -> (r: &'static str)
        ensures
            *self is Asc ==> r@ == "ASC"@,
            *self is Desc ==> r@ == "DESC"@,
    {
        match self {
            SortDirection::Asc => "ASC",
            SortDirection::Desc => "DESC",
        }
    }
}

impl QueryUtils {
    /// Trims ASCII whitespace from the free-text query, dropping it
    /// entirely when nothing remains, and passes the filters through
    /// unchanged. The trimming is deliberately ASCII, as in the rest of
    /// the text model.
    pub fn parse_search_params(query: Option<String>, filters: HashMap<String, String>) -> (r:
        SearchParams)
        ensures
            match query {
                Option::None => r.query is None,
                Option::Some(q) => if crate::text::trim_seq(q@).len() == 0 {
                    r.query is None
                } else {
                    r.query is Some && r.query->0@ == crate::text::trim_seq(q@)
                },
            },
            r.filters == filters,
    {
        let q: Option<String> = match query {
            Option::Some(q) => {
                let cs = str_chars(q.as_str());
                let t = trim_chars(&cs);
                if t.len() == 0 {
                    Option::None
                } else {
                    Option::Some(chars_to_string(&t))
                }
            },
            Option::None => Option::None,
        };
        SearchParams { query: q, filters }
    }

    /// Splits a sort parameter into field and direction: a leading `-`
    /// means descending; absence means the creation timestamp, ascending.
    pub fn parse_sort_params(sort_by: Option<String>) -> (r: SortParams)
        ensures
            match sort_by {
                Option::None => r.field@ == "created_at"@ && r.direction is Asc,
                Option::Some(s) => if s@.len() > 0 && s@[0] == '-' {
                    r.field@ == s@.drop_first() && r.direction is Desc
                } else {
                    r.field@ == s@ && r.direction is Asc
                },
            },
    {
        match sort_by {
            Option::None => SortParams {
                field: "created_at".to_owned(),
                direction: SortDirection::Asc,
            },
            Option::Some(s) => {
                let cs = str_chars(s.as_str());
                if cs.len() > 0 && cs[0] == '-' {
                    let mut rest: Vec<char> = Vec::new();
                    let n: usize = cs.len();
                    let mut i: usize = 1;
                    while i < n
                        invariant
                            1 <= i <= n,
                            n == cs@.len(),
                            rest@ == cs@.subrange(1, i as int),
                        decreases n - i,
                    {
                        rest.push(cs[i]);
                        i = i + 1;
                    }
                    proof {
                        assert(rest@ =~= s@.drop_first());
                    }
                    SortParams { field: chars_to_string(&rest), direction: SortDirection::Desc }
                } else {
                    SortParams { field: s, direction: SortDirection::Asc }
                }
            },
        }
    }
}

/// Date and time helpers over second-granularity Unix timestamps.
pub struct DateUtils;

/// What `chrono` renders for a timestamp in RFC 3339 form; a function of
/// the timestamp alone, `None` exactly for the timestamps outside
/// chrono's representable range of dates.
pub uninterp spec fn rfc3339_str_of(t: i64) -> Option<Seq<char>>;

/// The instant an RFC 3339 string denotes, as a Unix timestamp; a
/// function of the string alone, `None` exactly for strings that do not
/// parse as RFC 3339 dates.
pub uninterp spec fn rfc3339_sec_of(s: Seq<char>) -> Option<i64>;

impl DateUtils {
    /// The current Unix timestamp, in seconds.
    ///
    /// Relies on `chrono::Utc::now`; nothing is assumed about the clock's
    /// value.
    #[verifier::external_body]
    pub fn now() -> i64 {
        chrono::Utc::now().timestamp()
    }

    /// Parses an RFC 3339 / ISO 8601 date string to a Unix timestamp.
    ///
    /// Relies on `chrono::DateTime::parse_from_rfc3339`: the outcome,
    /// success or failure included, is computed from the string alone.
    #[verifier::external_body]
    pub fn parse_iso_date(date_str: &str) -> (r: Option<i64>)
        ensures
            r == rfc3339_sec_of(date_str@),
    {
        match chrono::DateTime::parse_from_rfc3339(date_str) {
            Ok(dt) => Some(dt.timestamp()),
            Err(_) => None,
        }
    }

    /// Renders a Unix timestamp in RFC 3339 form for API responses.
    ///
    /// Relies on `chrono::DateTime::from_timestamp` and `to_rfc3339`: the
    /// outcome is a function of the timestamp alone, and `None` occurs
    /// exactly for timestamps whose date falls outside chrono's
    /// representable calendar.
    #[verifier::external_body]
    pub fn format_api_date(date: i64) -> (r: Option<String>)
        ensures
            match r {
                Option::Some(s) => rfc3339_str_of(date) == Option::Some(s@),
                Option::None => rfc3339_str_of(date) is None,
            },
    {
        match chrono::DateTime::from_timestamp(date, 0) {
            Some(dt) => Some(dt.to_rfc3339()),
            None => None,
        }
    }

    /// Whether `date` lies within the optional bounds, both inclusive.
    pub fn is_date_in_range(date: i64, start: Option<i64>, end: Option<i64>) -> (r: bool)
        ensures
            r == ((match start {
                Option::Some(s) => date >= s,
                Option::None => true,
            }) && (match end {
                Option::Some(e) => date <= e,
                Option::None => true,
            })),
    {
        let after_start: bool = match start {
            Option::Some(s) => date >= s,
            Option::None => true,
        };
        let before_end: bool = match end {
            Option::Some(e) => date <= e,
            Option::None => true,
        };
        after_start && before_end
    }
}

/// Identifier helpers.
pub struct UuidUtils;

impl UuidUtils {
    /// Draws a fresh random identifier.
    ///
    /// Relies on `uuid::Uuid::new_v4` and `as_u64_pair`: a freshly
    /// generated random identifier, split into its two words; nothing is
    /// assumed about its value.
    #[verifier::external_body]
    pub fn generate() -> crate::ids::UserId {
        let (hi, lo) = uuid::Uuid::new_v4().as_u64_pair();
        crate::ids::UserId { hi, lo }
    }

    /// Parses an identifier rendering in any accepted form (hyphenated,
    /// simple, braced, or URN), reporting the offending input on
    /// failure.
    pub fn parse(uuid_str: &str) -> (r: Result<crate::ids::UserId, String>)
        ensures
            match r {
                Result::Ok(id) => crate::ids::spec_parse_uuid(uuid_str@) == Some(id),
                Result::Err(m) => crate::ids::spec_parse_uuid(uuid_str@) is None && m@
                    == "Invalid UUID format: "@ + uuid_str@,
            },
    {
        match crate::ids::UserId::parse(uuid_str) {
            Some(id) => Result::Ok(id),
            None => Result::Err("Invalid UUID format: ".to_owned().concat(uuid_str)),
        }
    }

    /// Whether a string is a well-formed identifier rendering, in any
    /// accepted form.
    pub fn is_valid(uuid_str: &str) -> (r: bool)
        ensures
            r == (crate::ids::spec_parse_uuid(uuid_str@) is Some),
    {
        match crate::ids::UserId::parse(uuid_str) {
            Some(_) => true,
            None => false,
        }
    }
}

/// Error response shaping.
pub struct ErrorUtils;

impl ErrorUtils {
    /// Wraps a list of validation messages under the single well-known
    /// key the API uses for them.
    pub fn format_validation_errors(errors: Vec<String>) -> (r: (String, Vec<String>))
        ensures
            r.0@ == "validation_errors"@,
            r.1 == errors,
    {
        ("validation_errors".to_owned(), errors)
    }

    /// Builds the standard two-field error body: the error type and the
    /// human-readable message.
    pub fn create_error_response(error_type: &str, message: &str) -> (r: Vec<(String, String)>)
        ensures
            r@.len() == 2,
            r@[0].0@ == "error"@ && r@[0].1@ == error_type@,
            r@[1].0@ == "message"@ && r@[1].1@ == message@,
    {
        let mut out: Vec<(String, String)> = Vec::new();
        out.push(("error".to_owned(), error_type.to_owned()));
        out.push(("message".to_owned(), message.to_owned()));
        out
    }
}

/// A character that survives into a slug.
pub open spec fn is_slug_char(c: char) -> bool {
    is_alnum(c)
}

/// One step of slug building: keep a lowercased alphanumeric, otherwise
/// start a dash unless one is already pending or nothing has been kept.
pub open spec fn slug_step(acc: Seq<char>, c: char) -> Seq<char> {
    if is_slug_char(c) {
        acc.push(lower_char(c))
    } else if acc.len() > 0 && acc.last() != '-' {
        acc.push('-')
    } else {
        acc
    }
}

/// The slug accumulated over `s`, before trailing-dash cleanup.
pub open spec fn slug_fold(s: Seq<char>) -> Seq<char>
    decreases s.len(),
{
    if s.len() == 0 {
        Seq::<char>::empty()
    } else {
        slug_step(slug_fold(s.drop_last()), s.last())
    }
}

/// The slug of `s`: lowercased alphanumeric runs joined by single dashes.
pub open spec fn slug_of(s: Seq<char>) -> Seq<char> {
    let t = slug_fold(s);
    if t.len() > 0 && t.last() == '-' {
        t.drop_last()
    } else {
        t
    }
}

/// One step of whitespace cleanup: keep a non-space, otherwise start a
/// single separating space unless one is already pending or nothing has
/// been kept.
pub open spec fn clean_ws_step(acc: Seq<char>, c: char) -> Seq<char> {
    if !is_space(c) {
        acc.push(c)
    } else if acc.len() > 0 && acc.last() != ' ' {
        acc.push(' ')
    } else {
        acc
    }
}

/// The cleaned text accumulated over `s`, before trailing-space cleanup.
pub open spec fn clean_ws_fold(s: Seq<char>) -> Seq<char>
    decreases s.len(),
{
    if s.len() == 0 {
        Seq::<char>::empty()
    } else {
        clean_ws_step(clean_ws_fold(s.drop_last()), s.last())
    }
}

/// `s` with whitespace runs collapsed to single spaces and ends trimmed.
pub open spec fn clean_ws_of(s: Seq<char>) -> Seq<char> {
    let t = clean_ws_fold(s);
    if t.len() > 0 && t.last() == ' ' {
        t.drop_last()
    } else {
        t
    }
}

/// String helpers.
pub struct StringUtils;

impl StringUtils {
    /// Turns a title into a slug: ASCII-lowercased ASCII-alphanumeric
    /// runs joined by single dashes, with no dash at either end. Letters
    /// and digits outside ASCII are deliberately treated as separators,
    /// not kept.
    pub fn slugify(input: &str) -> (r: String)
        ensures
            r@ == slug_of(input@),
    {
        let chars = str_chars(input);
        let ghost s = input@;
        let n: usize = chars.len();
        let mut acc: Vec<char> = Vec::new();
        let mut i: usize = 0;
        proof {
            assert(s.take(0) =~= Seq::<char>::empty());
        }
        while i < n
            invariant
                n == s.len(),
                chars@ == s,
                i <= n,
                acc@ == slug_fold(s.take(i as int)),
            decreases n - i,
        {
            let c = chars[i];
            proof {
                assert(s.take(i + 1).drop_last() =~= s.take(i as int));
                assert(s.take(i + 1).last() == s[i as int]);
            }
            if ('a' <= c && c <= 'z') || ('A' <= c && c <= 'Z') || ('0' <= c && c <= '9') {
                acc.push(crate::text::lower_char_exec(c));
            } else if acc.len() > 0 && *acc.last().unwrap() != '-' {
                acc.push('-');
            }
            i = i + 1;
        }
        proof {
            assert(s.take(n as int) =~= s);
        }
        if acc.len() > 0 && *acc.last().unwrap() == '-' {
            acc.pop().unwrap();
        }
        chars_to_string(&acc)
    }

    /// Keeps strings of at most `max_length` characters whole; longer
    /// ones are cut to `max_length - 3` characters and given an ellipsis.
    /// Lengths deliberately count characters, never bytes, so the cut
    /// always falls on a character boundary and cannot panic.
    pub fn truncate(input: &str, max_length: usize) -> (r: String)
        ensures
            input@.len() <= max_length ==> r@ == input@,
            input@.len() > max_length ==> r@ == input@.take(
                if max_length >= 3 {
                    max_length - 3
                } else {
                    0
                },
            ) + "..."@,
    {
        let chars = str_chars(input);
        let n: usize = chars.len();
        if n <= max_length {
            return chars_to_string(&chars);
        }
        let keep: usize = if max_length >= 3 {
            max_length - 3
        } else {
            0
        };
        let mut out: Vec<char> = Vec::new();
        let mut i: usize = 0;
        while i < keep
            invariant
                keep < n,
                n == chars@.len(),
                i <= keep,
                out@ == chars@.take(i as int),
            decreases keep - i,
        {
            out.push(chars[i]);
            proof {
                assert(chars@.take(i + 1) =~= chars@.take(i as int).push(chars@[i as int]));
            }
            i = i + 1;
        }
        let mut dots = str_chars("...");
        proof {
            reveal_strlit("...");
        }
        out.append(&mut dots);
        chars_to_string(&out)
    }

    /// Collapses every ASCII-whitespace run to a single space and trims
    /// the ends; the whitespace notion is deliberately ASCII.
    pub fn clean_whitespace(input: &str) -> (r: String)
        ensures
            r@ == clean_ws_of(input@),
    {
        let chars = str_chars(input);
        let ghost s = input@;
        let n: usize = chars.len();
        let mut acc: Vec<char> = Vec::new();
        let mut i: usize = 0;
        proof {
            assert(s.take(0) =~= Seq::<char>::empty());
        }
        while i < n
            invariant
                n == s.len(),
                chars@ == s,
                i <= n,
                acc@ == clean_ws_fold(s.take(i as int)),
            decreases n - i,
        {
            let c = chars[i];
            proof {
                assert(s.take(i + 1).drop_last() =~= s.take(i as int));
                assert(s.take(i + 1).last() == s[i as int]);
            }
            if !crate::text::space_char(c) {
                acc.push(c);
            } else if acc.len() > 0 && *acc.last().unwrap() != ' ' {
                acc.push(' ');
            }
            i = i + 1;
        }
        proof {
            assert(s.take(n as int) =~= s);
        }
        if acc.len() > 0 && *acc.last().unwrap() == ' ' {
            acc.pop().unwrap();
        }
        chars_to_string(&acc)
    }
}

} // verus!
