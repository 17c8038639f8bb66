use vstd::prelude::*;
use vstd::string::StrSliceExecFns;
use vstd::string::StringExecFns;

verus! {

pub type BoardId = i32;

/// Access to GitHub's project boards on behalf of one token.
pub struct Github {
    token: String,
}

/// A project board as GitHub reports it after creating it.
#[derive(Debug)]
pub struct CreatedBoard {
    pub html_url: String,
    pub id: BoardId,
}

/// A card as GitHub's API reports it.
#[derive(Debug, PartialEq)]
pub struct APICardBoard {
    pub project_url: String,
    pub id: u32,
    pub note: String,
}

/// A card of a project board.
#[derive(Debug, PartialEq)]
pub struct Card {
    pub project_id: u32,
    pub id: u32,
    pub note: String,
}

/// A column of a project board.
#[derive(Debug)]
pub struct Column {
    pub id: u32,
    pub name: String,
}

/// Why a repository could not be found in a URL.
#[derive(Debug, PartialEq)]
pub enum GithubError {
    InvalidRepositoryUrl,
}

impl GithubError {
    pub fn message(&self) -> (r: String)
        ensures
            r@ == "Not a valid github repository url"@,
    {
        String::from_str("Not a valid github repository url")
    }
}

impl Github {
    /// The token that requests are made with.
    pub closed spec fn spec_token(self) -> String {
        self.token
    }

    pub fn new(token: String) -> (r: Self)
        ensures
            r.spec_token() == token,
    {
        Self { token }
    }

    pub fn token(&self) -> (r: &String)
        ensures
            *r == self.spec_token(),
    {
        &self.token
    }
}

/// The text of group `group` in the leftmost-first match of the regular
/// expression `pattern` in `text`; `None` where the pattern does not compile,
/// does not match, or the group takes no part in the match.
pub uninterp spec fn regex_group(pattern: Seq<char>, group: Seq<char>, text: Seq<char>) -> Option<
    Seq<char>,
>;

/// Relies on regex's `Regex::new`, `Regex::captures` and `Captures::name`:
/// what they give depends on the pattern, the group name and the text alone.
#[verifier::external_body]
fn capture_group(pattern: &str, group: &str, text: &str) -> (r: Option<String>)
    ensures
        r matches Some(s) ==> regex_group(pattern@, group@, text@) == Some(s@),
        r is None ==> regex_group(pattern@, group@, text@) is None,
{
    match regex::Regex::new(pattern) {
        Ok(re) => match re.captures(text) {
            Some(caps) => caps.name(group).map(|m| m.as_str().to_string()),
            None => None,
        },
        Err(_) => None,
    }
}

pub open spec fn is_digit(c: char) -> bool {
    '0' <= c <= '9'
}

pub open spec fn all_digits(s: Seq<char>) -> bool {
    forall|i: int| 0 <= i < s.len() ==> is_digit(#[trigger] s[i])
}

/// The number that a string of decimal digits writes.
pub open spec fn digits_value(s: Seq<char>) -> nat
    decreases s.len(),
{
    if s.len() == 0 {
        0
    } else {
        digits_value(s.drop_last()) * 10 + (s.last() as nat - '0' as nat) as nat
    }
}

/// What parsing `s` as a `u32` gives: an optional `+`, then one or more
/// decimal digits whose value fits.
pub open spec fn parse_u32(s: Seq<char>) -> Option<u32> {
    let d = if s.len() > 0 && s[0] == '+' {
        s.drop_first()
    } else {
        s
    };
    if d.len() > 0 && all_digits(d) && digits_value(d) <= u32::MAX {
        Some(digits_value(d) as u32)
    } else {
        None
    }
}

proof fn lemma_digits_value_grows(s: Seq<char>, k: int)
    requires
        0 <= k <= s.len(),
        all_digits(s),
    ensures
        digits_value(s.take(k)) <= digits_value(s),
    decreases s.len() - k,
{
    if k < s.len() {
        lemma_digits_value_grows(s, k + 1);
        assert(s.take(k + 1).drop_last() =~= s.take(k));
        assert(is_digit(s[k]));
    } else {
        assert(s.take(k) =~= s);
    }
}

/// Parses a decimal `u32` as `str::parse` does.
fn parse_decimal_u32(s: &str) -> (r: Option<u32>)
    ensures
        r == parse_u32(s@),
{
    let n = s.unicode_len();
    let mut start: usize = 0;
    if n > 0 && s.get_char(0) == '+' {
        start = 1;
    }
    let ghost d = if s@.len() > 0 && s@[0] == '+' {
        s@.drop_first()
    } else {
        s@
    };
    assert(d =~= s@.subrange(start as int, n as int));
    if start == n {
        return None;
    }
    let mut value: u64 = 0;
    let mut i: usize = start;
    while i < n
        invariant
            start <= i <= n,
            n == s@.len(),
            d =~= s@.subrange(start as int, n as int),
            d == (if s@.len() > 0 && s@[0] == '+' {
                s@.drop_first()
            } else {
                s@
            }),
            all_digits(d.take(i - start)),
            value == digits_value(d.take(i - start)),
            value <= u32::MAX,
        decreases n - i,
    {
        let c = s.get_char(i);
        assert(d[i - start] == c);
        assert(d.take(i - start + 1).drop_last() =~= d.take(i - start));
        assert(d.take(i - start + 1).last() == c);
        if !('0' <= c && c <= '9') {
            assert(!is_digit(d[i - start]));
            assert(!all_digits(d));
            assert(parse_u32(s@) is None);
            return None;
        }
        let next: u64 = value * 10 + (c as u64 - '0' as u64);
        assert(all_digits(d.take(i - start + 1)));
        assert(next == digits_value(d.take(i - start + 1)));
        if next > u32::MAX as u64 {
            proof {
                if all_digits(d) {
                    lemma_digits_value_grows(d, i - start + 1);
                }
                assert(parse_u32(s@) is None);
            }
            return None;
        }
        value = next;
        i += 1;
    }
    assert(d.take(n - start) =~= d);
    Some(value as u32)
}

/// The card that an API card stands for, given the text that the project id
/// pattern captured from its project URL: `None` where nothing was captured
/// or the capture is no `u32`.
pub fn card_from_capture(captured: Option<String>, id: u32, note: String) -> (r: Option<Card>)
    ensures
        r == card_from_text(text_view(captured), id, note),
{
    match captured {
        Some(text) => match parse_decimal_u32(text.as_str()) {
            Some(project_id) => Some(Card { project_id, id, note }),
            None => None,
        },
        None => None,
    }
}

pub open spec fn text_view(s: Option<String>) -> Option<Seq<char>> {
    match s {
        Some(t) => Some(t@),
        None => None,
    }
}

pub open spec fn card_from_text(captured: Option<Seq<char>>, id: u32, note: String) -> Option<Card> {
    match captured {
        Some(text) => match parse_u32(text) {
            Some(project_id) => Some(Card { project_id, id, note }),
            None => None,
        },
        None => None,
    }
}

impl Card {
    /// The card of an API card: its project id is the number at the end of
    /// the project's API URL. `None` where the URL holds no such number.
    pub fn from_api_card(api_card: APICardBoard) -> (r: Option<Card>)
        ensures
            r == card_from_text(
                regex_group(
                    "https://api.github.com/projects/(?P<id>[0-9]+)"@,
                    "id"@,
                    api_card.project_url@,
                ),
                api_card.id,
                api_card.note,
            ),
    {
        let captured = capture_group(
            "https://api.github.com/projects/(?P<id>[0-9]+)",
            "id",
            api_card.project_url.as_str(),
        );
        card_from_capture(captured, api_card.id, api_card.note)
    }
}

/// The owner and repository, given what the repository URL pattern captured
/// for each: an error unless both were captured.
pub fn owner_repo_from_captures(owner: Option<String>, repo: Option<String>) -> (r: Result<
    (String, String),
    GithubError,
>)
    ensures
        match (owner, repo) {
            (Some(o), Some(p)) => r == Ok::<(String, String), GithubError>((o, p)),
            _ => r == Err::<(String, String), GithubError>(GithubError::InvalidRepositoryUrl),
        },
{
    match (owner, repo) {
        (Some(o), Some(p)) => Ok((o, p)),
        _ => Err(GithubError::InvalidRepositoryUrl),
    }
}

/// The owner and repository named by a GitHub repository URL.
pub fn get_owner_repo_from_url(url: &str) -> (r: Result<(String, String), GithubError>)
    ensures
        match (
            regex_group(
                "http(s)://github\\.com/(?P<owner>[^/]+)/(?P<repo>[^/]+)"@,
                "owner"@,
                url@,
            ),
            regex_group(
                "http(s)://github\\.com/(?P<owner>[^/]+)/(?P<repo>[^/]+)"@,
                "repo"@,
                url@,
            ),
        ) {
            (Some(o), Some(p)) => r matches Ok((ro, rp)) && ro@ == o && rp@ == p,
            _ => r == Err::<(String, String), GithubError>(GithubError::InvalidRepositoryUrl),
        },
{
    let pattern = "http(s)://github\\.com/(?P<owner>[^/]+)/(?P<repo>[^/]+)";
    let owner = capture_group(pattern, "owner", url);
    let repo = capture_group(pattern, "repo", url);
    owner_repo_from_captures(owner, repo)
}

} // verus!
