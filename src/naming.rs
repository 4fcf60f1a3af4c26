use vstd::prelude::*;

verus! {

/// Everything of a report's source address that comes before its identifier.
pub const REPORT_URL_PREFIX: &'static str = "https://reports3.hrstapp.com/report_svg-";

/// Everything of a report's source address that comes after its identifier.
pub const REPORT_URL_SUFFIX: &'static str = ".php";

/// The extension of every output image file.
pub const OUTPUT_EXTENSION: &'static str = ".png";

/// The request hosts that may trigger a capture.
pub const PUBLIC_HOST: &'static str = "reports3.hrstapp.com";

pub const LOCAL_HOST: &'static str = "127.0.0.1:8000";

pub open spec fn report_url_of(id: Seq<char>) -> Seq<char> {
    REPORT_URL_PREFIX@ + id + REPORT_URL_SUFFIX@
}

pub open spec fn output_file_name_of(id: Seq<char>) -> Seq<char> {
    id + OUTPUT_EXTENSION@
}

pub open spec fn host_allowed(host: Seq<char>) -> bool {
    host == PUBLIC_HOST@ || host == LOCAL_HOST@
}

/// Characters that may stand in an identifier: ASCII letters, digits, `_` and `-`.
pub open spec fn is_identifier_char(c: char) -> bool {
    ('a' <= c <= 'z') || ('A' <= c <= 'Z') || ('0' <= c <= '9') || c == '_' || c == '-'
}

/// A non-empty identifier that cannot break out of a URL segment or a file name.
pub open spec fn is_safe_identifier(id: Seq<char>) -> bool {
    id.len() > 0 && forall|i: int| 0 <= i < id.len() ==> is_identifier_char(#[trigger] id[i])
}

/// The address of the page that renders report `id`: the identifier verbatim
/// between a fixed prefix and suffix.
pub fn report_url(id: &str) -> (url: String)
    ensures
        url@ == report_url_of(id@),
{
    let mut url = String::from_str(REPORT_URL_PREFIX);
    url.append(id);
    url.append(REPORT_URL_SUFFIX);
    url
}

/// The file name of the image for report `id`.
pub fn output_file_name(id: &str) -> (name: String)
    ensures
        name@ == output_file_name_of(id@),
{
    let mut name = String::from_str(id);
    name.append(OUTPUT_EXTENSION);
    name
}

/// The path of the image for report `id` under the output directory `root`
/// (which ends with its separator).
pub fn output_path(root: &str, id: &str) -> (path: String)
    ensures
        path@ == root@ + output_file_name_of(id@),
{
    let mut path = String::from_str(root);
    let name = output_file_name(id);
    path.append(name.as_str());
    proof {
        assert(path@ =~= root@ + output_file_name_of(id@));
    }
    path
}

/// Whether a request that names `host` may trigger a capture.
pub fn is_allowed_host(host: &str) -> (r: bool)
    ensures
        r == host_allowed(host@),
{
    let h = String::from_str(host);
    let public = String::from_str(PUBLIC_HOST);
    let local = String::from_str(LOCAL_HOST);
    h == public || h == local
}

/// Whether `id` is safe to place in a URL and a file name.
pub fn is_safe_id(id: &str) -> (r: bool)
    ensures
        r == is_safe_identifier(id@),
{
    let n: usize = id.unicode_len();
    if n == 0 {
        return false;
    }
    let mut i: usize = 0;
    while i < n
        invariant
            n == id@.len(),
            i <= n,
            forall|k: int| 0 <= k < i ==> is_identifier_char(#[trigger] id@[k]),
        decreases n - i,
    {
        let c = id.get_char(i);
        if !(('a' <= c && c <= 'z') || ('A' <= c && c <= 'Z') || ('0' <= c && c <= '9') || c
            == '_' || c == '-') {
            return false;
        }
        i += 1;
    }
    true
}

/// What a one-shot invocation does with its arguments (program name left out).
#[derive(Clone, Debug, PartialEq, Eq)]
pub enum Invocation {
    /// Wrong number of arguments: print usage guidance and exit successfully,
    /// without starting a browser.
    PrintUsage,
    /// Capture the one report named.
    Capture(String),
}

/// Exactly one argument names the report to capture; any other count asks for
/// usage guidance.
pub fn plan_invocation(args: &Vec<String>) -> (r: Invocation)
    ensures
        args@.len() == 1 ==> r == Invocation::Capture(args@[0]),
        args@.len() != 1 ==> r == Invocation::PrintUsage,
{
    if args.len() == 1 {
        Invocation::Capture(args[0].clone())
    } else {
        Invocation::PrintUsage
    }
}

} // verus!
