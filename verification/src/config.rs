//! Configuration values the gateway runs with, and the small decisions of
//! the login surface: parsing the exclusion list, assembling the state the
//! request handlers share, and the checks the session gate relies on.

use vstd::prelude::*;

verus! {

/// The state shared by every request handler.
#[derive(Clone)]
pub struct AppState {
    pub root_dir: String,
    pub exclude_files: Vec<String>,
    pub url_prefix: String,
}

impl AppState {
    /// Packs the configured values into the shared state.
    pub fn new(root_dir: String, exclude_files: Vec<String>, url_prefix: String) -> (r: AppState)
        ensures
            r.root_dir@ == root_dir@,
            r.exclude_files.deep_view() == exclude_files.deep_view(),
            r.url_prefix@ == url_prefix@,
    {
        AppState { root_dir, exclude_files, url_prefix }
    }
}

/// Builds the shared state when both the sandbox root and the URL prefix
/// were configured, and reports the gap otherwise.
pub fn make_state(
    root_dir: Option<String>,
    url_prefix: Option<String>,
    exclude_files: Vec<String>,
) -> (r: Option<AppState>)
    ensures
        match r {
            Option::Some(s) => root_dir matches Option::Some(rd) && url_prefix
                matches Option::Some(up) && s.root_dir@ == rd@ && s.url_prefix@ == up@
                && s.exclude_files.deep_view() == exclude_files.deep_view(),
            Option::None => root_dir matches Option::None || url_prefix matches Option::None,
        },
{
    match (root_dir, url_prefix) {
        (Some(rd), Some(up)) => Some(AppState::new(rd, exclude_files, up)),
        _ => None,
    }
}

/// A whitespace character stripped from the ends of configured names: the
/// Unicode White_Space set.
pub open spec fn is_space(c: char) -> bool {
    c == '\u{0009}' || c == '\u{000A}' || c == '\u{000B}' || c == '\u{000C}' || c == '\u{000D}'
        || c == '\u{0020}' || c == '\u{0085}' || c == '\u{00A0}' || c == '\u{1680}'
        || c == '\u{2000}' || c == '\u{2001}' || c == '\u{2002}' || c == '\u{2003}'
        || c == '\u{2004}' || c == '\u{2005}' || c == '\u{2006}' || c == '\u{2007}'
        || c == '\u{2008}' || c == '\u{2009}' || c == '\u{200A}' || c == '\u{2028}'
        || c == '\u{2029}' || c == '\u{202F}' || c == '\u{205F}' || c == '\u{3000}'
}

/// Whether this character is stripped from the ends of configured names.
pub fn is_space_exec(c: char) -> (r: bool)
    ensures
        r == is_space(c),
{
    c == '\u{0009}' || c == '\u{000A}' || c == '\u{000B}' || c == '\u{000C}' || c == '\u{000D}'
        || c == '\u{0020}' || c == '\u{0085}' || c == '\u{00A0}' || c == '\u{1680}'
        || c == '\u{2000}' || c == '\u{2001}' || c == '\u{2002}' || c == '\u{2003}'
        || c == '\u{2004}' || c == '\u{2005}' || c == '\u{2006}' || c == '\u{2007}'
        || c == '\u{2008}' || c == '\u{2009}' || c == '\u{200A}' || c == '\u{2028}'
        || c == '\u{2029}' || c == '\u{202F}' || c == '\u{205F}' || c == '\u{3000}'
}

/// The text with leading whitespace removed.
pub open spec fn trim_front(s: Seq<char>) -> Seq<char>
    decreases s.len(),
{
    if s.len() > 0 && is_space(s[0]) {
        trim_front(s.drop_first())
    } else {
        s
    }
}

/// The text with trailing whitespace removed.
pub open spec fn trim_back(s: Seq<char>) -> Seq<char>
    decreases s.len(),
{
    if s.len() > 0 && is_space(s.last()) {
        trim_back(s.drop_last())
    } else {
        s
    }
}

/// The text with whitespace removed from both ends.
pub open spec fn trim_spec(s: Seq<char>) -> Seq<char> {
    trim_back(trim_front(s))
}

/// Strips whitespace from both ends of the text.
pub fn trim_text(s: &str) -> (r: String)
    ensures
        r@ == trim_spec(s@),
{
    let n = s.unicode_len();
    let mut a: usize = 0;
    proof {
        assert(s@.skip(0) =~= s@);
    }
    while a < n && is_space_exec(s.get_char(a))
        invariant
            n == s@.len(),
            a <= n,
            trim_front(s@) == trim_front(s@.skip(a as int)),
        decreases n - a,
    {
        proof {
            assert(s@.skip(a as int)[0] == s@[a as int]);
            assert(s@.skip(a as int).drop_first() =~= s@.skip(a + 1));
        }
        a = a + 1;
    }
    proof {
        if a < n {
            assert(s@.skip(a as int)[0] == s@[a as int]);
        }
        assert(trim_front(s@) == s@.skip(a as int));
    }
    let mut b: usize = n;
    proof {
        assert(s@.subrange(a as int, n as int) =~= s@.skip(a as int));
    }
    while b > a && is_space_exec(s.get_char(b - 1))
        invariant
            n == s@.len(),
            a <= b <= n,
            trim_back(s@.skip(a as int)) == trim_back(s@.subrange(a as int, b as int)),
        decreases b,
    {
        proof {
            assert(s@.subrange(a as int, b as int).last() == s@[b - 1]);
            assert(s@.subrange(a as int, b as int).drop_last() =~= s@.subrange(a as int, b - 1));
        }
        b = b - 1;
    }
    proof {
        if b > a {
            assert(s@.subrange(a as int, b as int).last() == s@[b - 1]);
        }
        assert(trim_back(s@.subrange(a as int, b as int)) == s@.subrange(a as int, b as int));
    }
    let piece = s.substring_char(a, b);
    String::from_str(piece)
}

/// Scan state after reading a prefix of the configured list: the pieces
/// already closed by a comma, and the piece still open.
pub open spec fn comma_scan(s: Seq<char>) -> (Seq<Seq<char>>, Seq<char>)
    decreases s.len(),
{
    if s.len() == 0 {
        (Seq::empty(), Seq::empty())
    } else {
        let (done, cur) = comma_scan(s.drop_last());
        if s.last() == ',' {
            (done.push(cur), Seq::empty())
        } else {
            (done, cur.push(s.last()))
        }
    }
}

/// The comma-separated pieces of the text, empty pieces kept.
pub open spec fn comma_split(s: Seq<char>) -> Seq<Seq<char>> {
    let (done, cur) = comma_scan(s);
    done.push(cur)
}

/// Every piece trimmed.
pub open spec fn trimmed_all(ps: Seq<Seq<char>>) -> Seq<Seq<char>> {
    ps.map_values(|p: Seq<char>| trim_spec(p))
}

/// The exclusion list that a raw configuration value denotes: its
/// comma-separated pieces, each trimmed.
pub open spec fn exclusion_list_spec(raw: Seq<char>) -> Seq<Seq<char>> {
    trimmed_all(comma_split(raw))
}

/// Parses the configured exclusion list: the comma-separated names, each
/// trimmed of surrounding whitespace.
pub fn get_exclude_files(raw: &str) -> (r: Vec<String>)
    ensures
        r.deep_view() == exclusion_list_spec(raw@),
{
    let n = raw.unicode_len();
    let mut done: Vec<String> = Vec::new();
    let mut seg_start: usize = 0;
    let mut i: usize = 0;
    proof {
        assert(raw@.subrange(0, 0) =~= Seq::<char>::empty());
        assert(done.deep_view() =~= trimmed_all(comma_scan(raw@.subrange(0, 0)).0));
    }
    while i < n
        invariant
            n == raw@.len(),
            seg_start <= i <= n,
            done.deep_view() == trimmed_all(comma_scan(raw@.subrange(0, i as int)).0),
            comma_scan(raw@.subrange(0, i as int)).1 == raw@.subrange(
                seg_start as int,
                i as int,
            ),
        decreases n - i,
    {
        let c = raw.get_char(i);
        proof {
            assert(raw@.subrange(0, i + 1).drop_last() =~= raw@.subrange(0, i as int));
            assert(raw@.subrange(0, i + 1).last() == raw@[i as int]);
        }
        if c == ',' {
            let piece = raw.substring_char(seg_start, i);
            let owned = trim_text(piece);
            done.push(owned);
            proof {
                let prev = comma_scan(raw@.subrange(0, i as int));
                let next = comma_scan(raw@.subrange(0, i + 1));
                assert(next.0 == prev.0.push(prev.1));
                assert(owned@ == trim_spec(prev.1));
                assert(trimmed_all(next.0) =~= trimmed_all(prev.0).push(trim_spec(prev.1)));
                assert(done.deep_view() =~= trimmed_all(comma_scan(raw@.subrange(0, i + 1)).0));
            }
            seg_start = i + 1;
            proof {
                assert(comma_scan(raw@.subrange(0, i + 1)).1 =~= raw@.subrange(
                    seg_start as int,
                    i + 1,
                ));
            }
        } else {
            proof {
                assert(raw@.subrange(seg_start as int, i as int).push(raw@[i as int])
                    =~= raw@.subrange(seg_start as int, i + 1));
            }
        }
        i = i + 1;
    }
    proof {
        assert(raw@.subrange(0, n as int) =~= raw@);
    }
    let piece = raw.substring_char(seg_start, n);
    let owned = trim_text(piece);
    done.push(owned);
    proof {
        let sc = comma_scan(raw@);
        assert(owned@ == trim_spec(sc.1));
        assert(comma_split(raw@) == sc.0.push(sc.1));
        assert(trimmed_all(comma_split(raw@)) =~= trimmed_all(sc.0).push(trim_spec(sc.1)));
        assert(done.deep_view() =~= exclusion_list_spec(raw@));
    }
    done
}

/// What the login form carries.
pub struct LoginForm {
    pub password: String,
}

/// Whether the submitted form carries the accepted password; only then is
/// the session marked verified.
pub fn check_login(form: &LoginForm) -> (r: bool)
    ensures
        r == (form.password@ == "ok"@),
{
    let expected = String::from_str("ok");
    form.password == expected
}

/// The session gate's decision: only a session whose verified flag is
/// present and true reaches the protected routes.
pub fn session_allows(is_verified: Option<bool>) -> (r: bool)
    ensures
        r == (is_verified == Option::<bool>::Some(true)),
{
    match is_verified {
        Some(v) => v,
        None => false,
    }
}

} // verus!
