//! A web search through SearXNG: the URL that is asked, and what is taken of the answer.

use crate::text::{
    debug_quoted, debug_text, decimal, join, push_decimal, push_joined, same_text, texts,
    trim_end_char, without_trailing,
};
use vstd::prelude::*;
use vstd::utf8::encode_utf8;

verus! {

/// A hexadecimal digit in upper case.
pub open spec fn hex_digit(n: int) -> char {
    if n < 10 {
        (48 + n) as char
    } else {
        (55 + n) as char
    }
}

/// Whether a byte may stand in a URL as it is: a letter, a digit, or one of `-`, `.`, `_`, `~`.
pub open spec fn is_unreserved(b: u8) -> bool {
    ||| 48 <= b <= 57
    ||| 65 <= b <= 90
    ||| 97 <= b <= 122
    ||| b == 45
    ||| b == 46
    ||| b == 95
    ||| b == 126
}

/// A byte as it stands in a URL.
pub open spec fn url_byte(b: u8) -> Seq<char> {
    if is_unreserved(b) {
        seq![b as char]
    } else {
        seq!['%', hex_digit(b as int / 16), hex_digit(b as int % 16)]
    }
}

/// Bytes as they stand in a URL.
pub open spec fn url_bytes(bytes: Seq<u8>) -> Seq<char>
    decreases bytes.len(),
{
    if bytes.len() == 0 {
        seq![]
    } else {
        url_bytes(bytes.drop_last()) + url_byte(bytes.last())
    }
}

/// `urlencoding::encode`: the bytes of the text as they stand in a URL, each as it is where it may,
/// else as a percent sign and two hexadecimal digits in upper case.
#[verifier::external_body]
fn url_encode(text: &str) -> (r: String)
    ensures
        r@ == url_bytes(encode_utf8(text@)),
{
    urlencoding::encode(text).into_owned()
}

/// A JSON value, as far as the answers of searches are read
#[derive(Debug)]
pub enum Json {
    /// A string
    Text(String),
    /// An array
    Array(Vec<Json>),
    /// An object
    Object(Vec<(String, Json)>),
    /// Anything else
    Other,
}

/// Look up information on the web
#[derive(Debug)]
pub struct WebSearchParams {
    /// Search query
    pub query: String,
    /// Limit the number of results
    pub max_results: Option<usize>,
}

/// Return web search results
#[derive(Debug)]
pub struct WebSearchResults {
    /// Original query
    pub query: String,
    /// Search results
    pub results: Vec<WebSearchResult>,
}

/// A single web search result
#[derive(Debug)]
pub struct WebSearchResult {
    /// The page title
    pub title: String,
    /// The source URL
    pub url: String,
    /// A snippet summarizing the content
    pub snippet: String,
}

/// Execute a web search via SearXNG
#[derive(Debug)]
pub struct WebSearch {
    /// URL base to query the SearXNG instance
    searxng_url_base: String,
}

/// The text of a result.
pub struct ResultView {
    /// The page title
    pub title: Seq<char>,
    /// The source URL
    pub url: Seq<char>,
    /// A snippet summarizing the content
    pub snippet: Seq<char>,
}

impl View for WebSearchResult {
    type V = ResultView;

    open spec fn view(&self) -> ResultView {
        ResultView { title: self.title@, url: self.url@, snippet: self.snippet@ }
    }
}

/// The position of the first member of that name, the number of members where there is none.
pub open spec fn member_at(members: Seq<(String, Json)>, name: Seq<char>) -> int
    decreases members.len(),
{
    if members.len() == 0 || members[0].0@ == name {
        0
    } else {
        1 + member_at(members.skip(1), name)
    }
}

/// The member of that name, of an object that has one.
pub open spec fn member(value: Json, name: Seq<char>) -> Json {
    match value {
        Json::Object(members) => if member_at(members@, name) < members@.len() {
            members@[member_at(members@, name)].1
        } else {
            Json::Other
        },
        _ => Json::Other,
    }
}

/// The text of the member of that name, nothing where that is no text.
pub open spec fn member_text(value: Json, name: Seq<char>) -> Seq<char> {
    match member(value, name) {
        Json::Text(text) => text@,
        _ => seq![],
    }
}

/// What is taken of an item of the answer.
pub open spec fn taken(item: Json) -> ResultView {
    ResultView {
        title: member_text(item, "title"@),
        url: member_text(item, "url"@),
        snippet: member_text(item, "content"@),
    }
}

/// What is taken of the items of an answer, up to the given number.
pub open spec fn taken_items(items: Seq<Json>, max_results: Option<usize>) -> Seq<ResultView> {
    let count = match max_results {
        Some(max) => if items.len() > max {
            max as nat
        } else {
            items.len()
        },
        None => items.len(),
    };
    Seq::new(count, |i: int| taken(items[i]))
}

/// The texts of results.
pub open spec fn result_views(results: Seq<WebSearchResult>) -> Seq<ResultView> {
    Seq::new(results.len(), |i: int| results[i]@)
}

/// Where a member stands.
proof fn lemma_member_at(members: Seq<(String, Json)>, name: Seq<char>, i: int)
    requires
        0 <= i <= members.len(),
        forall|j: int| 0 <= j < i ==> members[j].0@ != name,
        i < members.len() ==> members[i].0@ == name,
    ensures
        member_at(members, name) == i,
    decreases i,
{
    if i > 0 {
        assert forall|j: int| 0 <= j < i - 1 implies members.skip(1)[j].0@ != name by {
            assert(members.skip(1)[j] == members[j + 1]);
        }
        lemma_member_at(members.skip(1), name, i - 1);
    }
}

impl Json {
    /// The member of that name.
    pub fn get(&self, name: &str) -> (r: Option<&Json>)
        ensures
            match r {
                Some(value) => member(*self, name@) == *value,
                None => member(*self, name@) == Json::Other,
            },
    {
        match self {
            Json::Object(members) => {
                for i in 0..members.len()
                    invariant
                        *self == Json::Object(*members),
                        forall|j: int| 0 <= j < i ==> members@[j].0@ != name@,
                {
                    if same_text(members[i].0.as_str(), name) {
                        proof {
                            lemma_member_at(members@, name@, i as int);
                        }
                        return Some(&members[i].1);
                    }
                }
                proof {
                    lemma_member_at(members@, name@, members@.len() as int);
                }
                None
            },
            _ => None,
        }
    }

    /// The text of the member of that name, nothing where that is no text.
    fn get_text(&self, name: &str) -> (r: String)
        ensures
            r@ == member_text(*self, name@),
    {
        match self.get(name) {
            Some(Json::Text(text)) => text.clone(),
            _ => {
                let none = String::new();
                assert(none@ =~= seq![]);
                none
            },
        }
    }
}

impl WebSearch {
    /// The URL base.
    pub closed spec fn base(&self) -> Seq<char> {
        self.searxng_url_base@
    }

    /// Create a new [`WebSearch`] tool instance, accessing the given URL for queries.
    pub fn new(searxng_url: &str) -> (r: Self)
        ensures
            r.base() == trim_end_char(searxng_url@, '/'),
    {
        WebSearch { searxng_url_base: without_trailing(searxng_url, '/') }
    }

    /// The URL that is asked.
    pub fn url(&self, params: &WebSearchParams) -> (r: String)
        ensures
            r@ == self.base() + "/search?q="@ + url_bytes(encode_utf8(params.query@))
                + "&format=json&categories=general"@,
    {
        let mut url = self.searxng_url_base.clone();
        url.append("/search?q=");
        let query = url_encode(params.query.as_str());
        url.append(query.as_str());
        url.append("&format=json&categories=general");
        assert(url@ =~= self.base() + "/search?q="@ + url_bytes(encode_utf8(params.query@))
            + "&format=json&categories=general"@);
        url
    }

    /// What is taken of the answer. One without results is an error.
    pub fn execute(&self, params: WebSearchParams, answer: &Json) -> (r: Result<
        WebSearchResults,
        String,
    >)
        ensures
            match member(*answer, "results"@) {
                Json::Array(items) => r matches Ok(found) && found.query == params.query
                    && result_views(found.results@) == taken_items(items@, params.max_results),
                _ => r matches Err(error) && error@ == "No results returned"@,
            },
    {
        let items = match answer.get("results") {
            Some(Json::Array(items)) => items,
            _ => {
                return Err("No results returned".to_string());
            },
        };
        let count: usize = match params.max_results {
            Some(max) => if items.len() > max {
                max
            } else {
                items.len()
            },
            None => items.len(),
        };
        let mut results: Vec<WebSearchResult> = Vec::new();
        for i in 0..count
            invariant
                count <= items@.len(),
                result_views(results@) == Seq::new(i as nat, |j: int| taken(items@[j])),
        {
            let item = &items[i];
            let result = WebSearchResult {
                title: item.get_text("title"),
                url: item.get_text("url"),
                snippet: item.get_text("content"),
            };
            let ghost before = results@;
            results.push(result);
            proof {
                assert(result_views(results@) =~= result_views(before).push(result@));
                assert(result_views(results@) =~= Seq::new(
                    i as nat + 1,
                    |j: int| taken(items@[j]),
                ));
            }
        }
        assert(result_views(results@) =~= taken_items(items@, params.max_results));
        Ok(WebSearchResults { query: params.query, results })
    }
}

impl WebSearchParams {
    /// The parameters in a form for display.
    pub fn display(&self) -> (r: String)
        ensures
            r@ == "query="@ + debug_quoted(self.query@) + (match self.max_results {
                Some(max) => " max_results="@ + decimal(max as nat),
                None => seq![],
            }),
    {
        let mut out = String::new();
        out.append("query=");
        let quoted = debug_text(self.query.as_str());
        out.append(quoted.as_str());
        match self.max_results {
            Some(max) => {
                out.append(" max_results=");
                push_decimal(&mut out, max);
            },
            None => {},
        }
        assert(out@ =~= "query="@ + debug_quoted(self.query@) + (match self.max_results {
            Some(max) => " max_results="@ + decimal(max as nat),
            None => seq![],
        }));
        out
    }
}

/// A result, as it is shown.
pub open spec fn result_text(result: ResultView) -> Seq<char> {
    result.title + " ("@ + result.url + ")"@
}

impl WebSearchResult {
    /// The result in a form for display.
    pub fn display(&self) -> (r: String)
        ensures
            r@ == result_text(self@),
    {
        let mut out = self.title.clone();
        out.append(" (");
        out.append(self.url.as_str());
        out.append(")");
        assert(out@ =~= result_text(self@));
        out
    }
}

impl WebSearchResults {
    /// The results in a form for display.
    pub fn display(&self) -> (r: String)
        ensures
            r@ == "["@ + join(
                result_views(self.results@).map_values(|v: ResultView| result_text(v)),
                ", "@,
            ) + "]"@,
    {
        let ghost all = result_views(self.results@).map_values(|v: ResultView| result_text(v));
        let mut shown: Vec<String> = Vec::new();
        assert(texts(shown@) =~= all.take(0));
        for i in 0..self.results.len()
            invariant
                all == result_views(self.results@).map_values(|v: ResultView| result_text(v)),
                texts(shown@) == all.take(i as int),
        {
            let text = self.results[i].display();
            let ghost before = shown@;
            shown.push(text);
            proof {
                assert(text@ == all[i as int]);
                assert(texts(shown@) =~= texts(before).push(text@));
                assert(texts(shown@) =~= all.take(i + 1));
            }
        }
        assert(all.take(all.len() as int) =~= all);
        let mut out = String::new();
        out.append("[");
        push_joined(&mut out, &shown, ", ");
        out.append("]");
        assert(out@ =~= "["@ + join(all, ", "@) + "]"@);
        out
    }
}

/// A search never gives more results than were asked for.
pub proof fn searches_keep_to_their_limit(items: Seq<Json>, max: usize)
    ensures
        taken_items(items, Some(max)).len() <= max,
        taken_items(items, Some(max)).is_prefix_of(taken_items(items, None)),
{
    let some = taken_items(items, Some(max));
    let all = taken_items(items, None);
    assert(some =~= all.take(some.len() as int));
}

/// The member of an object is the first of that name; a value without one has none.
pub proof fn members_are_the_first_of_their_name(
    members: Vec<(String, Json)>,
    name: Seq<char>,
    i: int,
)
    requires
        forall|j: int| 0 <= j < i ==> (#[trigger] members@[j]).0@ != name,
        0 <= i <= members@.len(),
    ensures
        i < members@.len() && members@[i].0@ == name ==> member(Json::Object(members), name)
            == members@[i].1,
        i == members@.len() ==> member(Json::Object(members), name) == Json::Other,
{
    if i == members@.len() || members@[i].0@ == name {
        lemma_member_at(members@, name, i);
    }
}

/// Only objects have members.
pub proof fn only_objects_have_members(value: Json, name: Seq<char>)
    requires
        value !is Object,
    ensures
        member(value, name) == Json::Other,
        member_text(value, name).len() == 0,
{
}

/// Each result has the title and the URL of its item, and the content as a snippet, as far as these
/// are texts; the results are as many as there are items, or as many of the first as were asked for.
pub proof fn results_are_what_the_items_say(items: Seq<Json>, max_results: Option<usize>, i: int)
    ensures
        ({
            let results = taken_items(items, max_results);
            &&& max_results is None ==> results.len() == items.len()
            &&& max_results is Some && items.len() <= max_results->0 ==> results.len()
                == items.len()
            &&& max_results is Some && items.len() > max_results->0 ==> results.len()
                == max_results->0
            &&& 0 <= i < results.len() ==> {
                &&& member(items[i], "title"@) matches Json::Text(text) ==> results[i].title
                    == text@
                &&& member(items[i], "url"@) matches Json::Text(text) ==> results[i].url == text@
                &&& member(items[i], "content"@) matches Json::Text(text) ==> results[i].snippet
                    == text@
                &&& member(items[i], "title"@) !is Text ==> results[i].title.len() == 0
                &&& member(items[i], "url"@) !is Text ==> results[i].url.len() == 0
                &&& member(items[i], "content"@) !is Text ==> results[i].snippet.len() == 0
            }
        }),
{
}

/// What stands in a URL for a text has no character that means something in a URL, but for the percent
/// sign: it is made of letters, digits and the four marks that may stand as they are.
pub proof fn url_text_is_harmless(bytes: Seq<u8>, i: int)
    requires
        0 <= i < url_bytes(bytes).len(),
    ensures
        ({
            let c = url_bytes(bytes)[i];
            'a' <= c <= 'z' || 'A' <= c <= 'Z' || '0' <= c <= '9' || c == '-' || c == '.' || c == '_'
                || c == '~' || c == '%'
        }),
    decreases bytes.len(),
{
    let before = url_bytes(bytes.drop_last());
    if i < before.len() {
        url_text_is_harmless(bytes.drop_last(), i);
    } else {
        let own = url_byte(bytes.last());
        assert(url_bytes(bytes)[i] == own[i - before.len()]);
    }
}

/// What stands in a URL for two texts is what stands for the one and then for the other.
pub proof fn url_text_adds_up(a: Seq<u8>, b: Seq<u8>)
    ensures
        url_bytes(a + b) == url_bytes(a) + url_bytes(b),
    decreases b.len(),
{
    if b.len() == 0 {
        assert(a + b =~= a);
        assert(url_bytes(a) + url_bytes(b) =~= url_bytes(a));
    } else {
        url_text_adds_up(a, b.drop_last());
        assert((a + b).drop_last() =~= a + b.drop_last());
        assert(url_bytes(a + b) =~= url_bytes(a) + url_bytes(b));
    }
}

} // verus!
