//! The render pipeline's decision logic: whether a resolved file must be
//! compiled before it is served, which content type and disposition header
//! it gets, and which per-request scratch location the compiled artifact is
//! written to.
//!
//! The subprocess invocation and the byte streaming themselves are left to
//! the caller; everything decided here is a plain value.

use vstd::prelude::*;

verus! {

/// The reserved extension marking a compilable source document.
pub open spec fn is_source_name(name: Seq<char>) -> bool {
    name.len() >= 4 && name.skip(name.len() - 4) == ".typ"@
}

/// Whether this file name marks a source document that must be compiled
/// before serving.
pub fn is_source_document(file_name: &str) -> (r: bool)
    ensures
        r == is_source_name(file_name@),
{
    proof {
        reveal_strlit(".typ");
    }
    let n = file_name.unicode_len();
    if n < 4 {
        return false;
    }
    let r = file_name.get_char(n - 4) == '.' && file_name.get_char(n - 3) == 't'
        && file_name.get_char(n - 2) == 'y' && file_name.get_char(n - 1) == 'p';
    proof {
        let s = file_name@.skip(n - 4);
        assert(s.len() == 4);
        assert(s[0] == file_name@[n - 4]);
        assert(s[1] == file_name@[n - 3]);
        assert(s[2] == file_name@[n - 2]);
        assert(s[3] == file_name@[n - 1]);
        if r {
            assert(s =~= ".typ"@);
        } else {
            assert(s != ".typ"@);
        }
    }
    r
}

/// The content type that `mime_guess`'s fixed table assigns to a path's
/// extension, when it has an entry for it.
pub uninterp spec fn mime_lookup_of(path: Seq<char>) -> Option<Seq<char>>;

/// Relies on `mime_guess::from_path`: the first guess for the path's
/// extension, looked up in a fixed compile-time table with no disk access,
/// so a function of the path alone; nothing when the table has no entry.
#[verifier::external_body]
fn guess_mime(path: &str) -> (r: Option<String>)
    ensures
        r.deep_view() == mime_lookup_of(path@),
{
    mime_guess::from_path(path).first().map(|m| m.to_string())
}

/// The content type a raw file is served under: the table's entry for its
/// extension, or `text/plain` when it has none.
pub open spec fn content_type_of(path: Seq<char>) -> Seq<char> {
    match mime_lookup_of(path) {
        Option::Some(m) => m,
        Option::None => "text/plain"@,
    }
}

/// Guesses the content type for a raw file, defaulting to `text/plain`
/// when the extension is unrecognized.
pub fn guess_content_type(path: &str) -> (r: String)
    ensures
        r@ == content_type_of(path@),
{
    match guess_mime(path) {
        Some(m) => m,
        None => String::from_str("text/plain"),
    }
}

/// The `Content-Disposition` header value for a served file.
pub open spec fn disposition_spec(name: Seq<char>) -> Seq<char> {
    "inline; filename=\""@ + name + "\""@
}

/// Builds the `Content-Disposition` header value naming the served file.
pub fn content_disposition(file_name: &str) -> (r: String)
    ensures
        r@ == disposition_spec(file_name@),
{
    let mut r = String::from_str("inline; filename=\"");
    r.append(file_name);
    r.append("\"");
    proof {
        assert(r@ =~= disposition_spec(file_name@));
    }
    r
}

/// The digit character for one decimal digit.
pub open spec fn digit_char(d: nat) -> char {
    if d == 0 {
        '0'
    } else if d == 1 {
        '1'
    } else if d == 2 {
        '2'
    } else if d == 3 {
        '3'
    } else if d == 4 {
        '4'
    } else if d == 5 {
        '5'
    } else if d == 6 {
        '6'
    } else if d == 7 {
        '7'
    } else if d == 8 {
        '8'
    } else {
        '9'
    }
}

/// The decimal digits of a number, most significant first.
pub open spec fn decimal_digits(n: nat) -> Seq<char>
    decreases n,
{
    if n < 10 {
        seq![digit_char(n)]
    } else {
        decimal_digits(n / 10) + seq![digit_char(n % 10)]
    }
}

proof fn lemma_digit_char_injective(a: nat, b: nat)
    requires
        a < 10,
        b < 10,
        digit_char(a) == digit_char(b),
    ensures
        a == b,
{
}

/// Distinct numbers render to distinct digit strings.
proof fn lemma_decimal_digits_injective(a: nat, b: nat)
    requires
        decimal_digits(a) == decimal_digits(b),
    ensures
        a == b,
    decreases a,
{
    let da = decimal_digits(a);
    let db = decimal_digits(b);
    if a < 10 && b < 10 {
        assert(da[0] == digit_char(a) && db[0] == digit_char(b));
        lemma_digit_char_injective(a, b);
    } else if a < 10 {
        assert(decimal_digits(b / 10).len() >= 1);
        assert(db.len() >= 2 && da.len() == 1);
    } else if b < 10 {
        assert(decimal_digits(a / 10).len() >= 1);
        assert(da.len() >= 2 && db.len() == 1);
    } else {
        assert(da.last() == digit_char(a % 10));
        assert(db.last() == digit_char(b % 10));
        lemma_digit_char_injective(a % 10, b % 10);
        assert(da.drop_last() =~= decimal_digits(a / 10));
        assert(db.drop_last() =~= decimal_digits(b / 10));
        lemma_decimal_digits_injective(a / 10, b / 10);
        assert(a == 10 * (a / 10) + a % 10);
        assert(b == 10 * (b / 10) + b % 10);
    }
}

/// The static text of one decimal digit.
fn digit_str(d: u64) -> (r: &'static str)
    requires
        d < 10,
    ensures
        r@ == seq![digit_char(d as nat)],
{
    proof {
        reveal_strlit("0");
        reveal_strlit("1");
        reveal_strlit("2");
        reveal_strlit("3");
        reveal_strlit("4");
        reveal_strlit("5");
        reveal_strlit("6");
        reveal_strlit("7");
        reveal_strlit("8");
        reveal_strlit("9");
    }
    let r = if d == 0 {
        "0"
    } else if d == 1 {
        "1"
    } else if d == 2 {
        "2"
    } else if d == 3 {
        "3"
    } else if d == 4 {
        "4"
    } else if d == 5 {
        "5"
    } else if d == 6 {
        "6"
    } else if d == 7 {
        "7"
    } else if d == 8 {
        "8"
    } else {
        "9"
    };
    proof {
        assert(r@ =~= seq![digit_char(d as nat)]);
    }
    r
}

/// Appends the decimal rendering of `n`.
fn push_decimal(n: u64, out: &mut String)
    ensures
        final(out)@ == old(out)@ + decimal_digits(n as nat),
    decreases n,
{
    if n < 10 {
        out.append(digit_str(n));
        proof {
            assert(final(out)@ =~= old(out)@ + decimal_digits(n as nat));
        }
    } else {
        push_decimal(n / 10, out);
        out.append(digit_str(n % 10));
        proof {
            assert((n / 10) as nat == n as nat / 10);
            assert((n % 10) as nat == n as nat % 10);
            assert(final(out)@ =~= old(out)@ + decimal_digits(n as nat));
        }
    }
}

/// The scratch location a request's compiled artifact is written to,
/// derived from the request's identifier alone.
pub open spec fn scratch_path_spec(out_dir: Seq<char>, id: nat) -> Seq<char> {
    out_dir + "/"@ + decimal_digits(id) + ".pdf"@
}

/// Builds the per-request scratch output path for a compiled artifact.
pub fn scratch_output_path(out_dir: &str, request_id: u64) -> (r: String)
    ensures
        r@ == scratch_path_spec(out_dir@, request_id as nat),
{
    let mut r = String::from_str(out_dir);
    r.append("/");
    push_decimal(request_id, &mut r);
    r.append(".pdf");
    proof {
        assert(r@ =~= scratch_path_spec(out_dir@, request_id as nat));
    }
    r
}

/// Law: two different requests never share a scratch output path, so
/// concurrent compilations cannot overwrite each other's artifact.
pub proof fn lemma_scratch_paths_distinct(out_dir: Seq<char>, id1: nat, id2: nat)
    requires
        id1 != id2,
    ensures
        scratch_path_spec(out_dir, id1) != scratch_path_spec(out_dir, id2),
{
    reveal_strlit("/");
    reveal_strlit(".pdf");
    let p1 = scratch_path_spec(out_dir, id1);
    let p2 = scratch_path_spec(out_dir, id2);
    let d1 = decimal_digits(id1);
    let d2 = decimal_digits(id2);
    if p1 == p2 {
        assert(p1.len() == p2.len());
        assert(d1.len() == d2.len());
        let k = out_dir.len() + 1;
        assert(d1 =~= p1.subrange(k as int, k as int + d1.len() as int)) by {
            assert(forall|i: int| 0 <= i < d1.len() ==> p1[k + i] == #[trigger] d1[i]);
        }
        assert(d2 =~= p2.subrange(k as int, k as int + d2.len() as int)) by {
            assert(forall|i: int| 0 <= i < d2.len() ==> p2[k + i] == #[trigger] d2[i]);
        }
        lemma_decimal_digits_injective(id1, id2);
        assert(false);
    }
}

/// How a resolved file is to be served.
pub struct RenderDecision {
    /// Run the external compiler and stream its artifact instead of the
    /// file itself.
    pub compile: bool,
    /// The `Content-Type` header value.
    pub content_type: String,
    /// The `Content-Disposition` header value.
    pub content_disposition: String,
}

/// Decides how to serve a resolved file: a source document is compiled and
/// served as PDF, anything else is streamed raw under its guessed content
/// type.
pub fn plan_render(file_name: &str, full_path: &str) -> (r: RenderDecision)
    ensures
        r.compile == is_source_name(file_name@),
        r.content_type@ == (if is_source_name(file_name@) {
            "application/pdf"@
        } else {
            content_type_of(full_path@)
        }),
        r.content_disposition@ == disposition_spec(file_name@),
{
    let compile = is_source_document(file_name);
    let content_type = if compile {
        String::from_str("application/pdf")
    } else {
        guess_content_type(full_path)
    };
    let content_disposition = content_disposition(file_name);
    RenderDecision { compile, content_type, content_disposition }
}

/// The argument list handed to the external compiler: its subcommand, the
/// source path, the sandbox root and the output path.
pub fn compile_args(source_path: &str, root_dir: &str, output_path: &str) -> (r: Vec<String>)
    ensures
        r.deep_view() == seq!["compile"@, source_path@, "--root"@, root_dir@, output_path@],
{
    let mut r: Vec<String> = Vec::new();
    r.push(String::from_str("compile"));
    r.push(String::from_str(source_path));
    r.push(String::from_str("--root"));
    r.push(String::from_str(root_dir));
    r.push(String::from_str(output_path));
    proof {
        assert(r.deep_view() =~= seq![
            "compile"@,
            source_path@,
            "--root"@,
            root_dir@,
            output_path@,
        ]);
    }
    r
}

} // verus!
