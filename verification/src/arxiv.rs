//! The paper-index client logic: search and fetch URLs, result paging,
//! and the shaping of fetched text into paragraphs. The browser driving
//! around it — launching, navigating, evaluating — is the surrounding
//! binary's loop over the session types.

use vstd::prelude::*;
use crate::config::Config;
use crate::models::{Paper, Paragraph};
use crate::strutil::{dec_digits, str_starts_with, starts_with_spec, u64_to_dec};
use vstd::string::StringSliceAdditionalSpecFns;

verus! {

/// A byte a URL keeps as it is: an ASCII alphanumeric or `-`, `.`, `_`,
/// `~`.
pub open spec fn is_url_unreserved(b: u8) -> bool {
    (48 <= b && b <= 57) || (65 <= b && b <= 90) || (97 <= b && b <= 122) || b == 45 || b == 46
        || b == 95 || b == 126
}

/// The character for one uppercase hex digit.
pub open spec fn hex_digit_char(d: int) -> char {
    if d < 10 {
        ((48 + d) as u8) as char
    } else {
        ((55 + d) as u8) as char
    }
}

/// Percent-encoding of a byte sequence: every byte but the unreserved
/// ones becomes `%` and two uppercase hex digits.
pub open spec fn url_encode_bytes(bs: Seq<u8>) -> Seq<char>
    decreases bs.len(),
{
    if bs.len() == 0 {
        Seq::empty()
    } else {
        (if is_url_unreserved(bs[0]) {
            seq![bs[0] as char]
        } else {
            seq!['%', hex_digit_char(bs[0] as int / 16), hex_digit_char(bs[0] as int % 16)]
        }) + url_encode_bytes(bs.drop_first())
    }
}

/// Relies on `urlencoding::encode`: percent-encodes every byte of the
/// string's UTF-8 form except ASCII alphanumerics and `-`, `.`, `_`,
/// `~`, using uppercase hex digits.
#[verifier::external_body]
fn url_encode(s: &str) -> (r: String)
    ensures
        r@ == url_encode_bytes(s.spec_bytes()),
{
    urlencoding::encode(s).into_owned()
}

/// The search URL for one result page: the plain search endpoint, or the
/// advanced one when a date bound is given.
pub open spec fn search_url_spec(
    encq: Seq<char>,
    start: nat,
    after: Option<Seq<char>>,
    before: Option<Seq<char>>,
) -> Seq<char> {
    if after is Some || before is Some {
        "https://arxiv.org/search/advanced?advanced=1&terms-0-operator=AND&terms-0-term="@ + encq
            + "&terms-0-field=all&classification-physics_archives=all&classification-include_cross_list=include&date-filter_by=date_range&date-from_date="@
            + (match after {
            Some(a) => a,
            None => Seq::empty(),
        }) + "&date-to_date="@ + (match before {
            Some(b) => b,
            None => Seq::empty(),
        }) + "&date-date_type=submitted_date&abstracts=show&size=50&order=-announced_date_first&start="@
            + dec_digits(start)
    } else {
        "https://arxiv.org/search/?query="@ + encq + "&searchtype=all&source=header&start="@
            + dec_digits(start)
    }
}

/// The page URL for one paper: an identifier becomes an abstract URL; a
/// full URL is taken as it is.
pub open spec fn fetch_url_spec(id: Seq<char>) -> Seq<char> {
    if starts_with_spec(id, "http"@) {
        id
    } else {
        "https://arxiv.org/abs/"@ + id
    }
}

/// The paper-index client: the launch settings it will hand the process
/// supervisor, taken from the configuration.
pub struct ArxivClient {
    pub headless: bool,
    pub browser_path: Option<String>,
}

impl ArxivClient {
    /// A client launching as the configuration says.
    pub fn new(config: &Config) -> (c: ArxivClient)
        ensures
            c.headless == config.headless,
            match config.browser_path {
                Some(p) => c.browser_path matches Some(q) && q@ == p@,
                None => c.browser_path is None,
            },
    {
        let path: Option<String> = match &config.browser_path {
            Some(p) => Some(p.clone()),
            None => None,
        };
        ArxivClient { headless: config.headless, browser_path: path }
    }

    /// The user agent the browser is launched with.
    pub fn user_agent_arg() -> (r: String)
        ensures
            r@
                == "--user-agent=Mozilla/5.0 (Macintosh; Intel Mac OS X 10_15_7) AppleWebKit/537.36 (KHTML, like Gecko) Chrome/120.0.0.0 Safari/537.36"@,
    {
        String::from_str(
            "--user-agent=Mozilla/5.0 (Macintosh; Intel Mac OS X 10_15_7) AppleWebKit/537.36 (KHTML, like Gecko) Chrome/120.0.0.0 Safari/537.36",
        )
    }

    /// The search URL for `query` at offset `start`, bounded by the given
    /// submission dates if any.
    pub fn build_search_url(
        query: &str,
        start: usize,
        after: &Option<String>,
        before: &Option<String>,
    ) -> (r: String)
        ensures
            r@ == search_url_spec(
                url_encode_bytes(query.spec_bytes()),
                start as nat,
                match after {
                    Some(a) => Some(a@),
                    None => None,
                },
                match before {
                    Some(b) => Some(b@),
                    None => None,
                },
            ),
    {
        let encoded: String = url_encode(query);
        let start_str: String = u64_to_dec(start as u64);
        let has_dates: bool = after.is_some() || before.is_some();
        if has_dates {
            let mut out: String = String::from_str(
                "https://arxiv.org/search/advanced?advanced=1&terms-0-operator=AND&terms-0-term=",
            );
            out.append(encoded.as_str());
            out.append(
                "&terms-0-field=all&classification-physics_archives=all&classification-include_cross_list=include&date-filter_by=date_range&date-from_date=",
            );
            match after {
                Some(a) => out.append(a.as_str()),
                None => (),
            }
            out.append("&date-to_date=");
            match before {
                Some(b) => out.append(b.as_str()),
                None => (),
            }
            out.append(
                "&date-date_type=submitted_date&abstracts=show&size=50&order=-announced_date_first&start=",
            );
            out.append(start_str.as_str());
            assert(out@ =~= search_url_spec(
                url_encode_bytes(query.spec_bytes()),
                start as nat,
                match after {
                    Some(a) => Some(a@),
                    None => None,
                },
                match before {
                    Some(b) => Some(b@),
                    None => None,
                },
            ));
            out
        } else {
            let mut out: String = String::from_str("https://arxiv.org/search/?query=");
            out.append(encoded.as_str());
            out.append("&searchtype=all&source=header&start=");
            out.append(start_str.as_str());
            assert(out@ =~= search_url_spec(
                url_encode_bytes(query.spec_bytes()),
                start as nat,
                match after {
                    Some(a) => Some(a@),
                    None => None,
                },
                match before {
                    Some(b) => Some(b@),
                    None => None,
                },
            ));
            out
        }
    }

    /// The page URL for one paper identifier or full URL.
    pub fn build_fetch_url(id: &str) -> (r: String)
        ensures
            r@ == fetch_url_spec(id@),
    {
        if str_starts_with(id, "http") {
            String::from_str(id)
        } else {
            let mut out: String = String::from_str("https://arxiv.org/abs/");
            out.append(id);
            out
        }
    }
}

/// How many results one result page asks for, and how far the offset
/// advances between pages.
pub const PAGE_CHUNK: usize = 50;

/// The paging of one search: how far it has come, what it has collected,
/// and how much the caller wants.
pub struct SearchPager {
    pub start: usize,
    pub limit: usize,
    pub collected: Vec<Paper>,
}

impl SearchPager {
    /// A fresh search: offset zero, nothing collected; no limit means
    /// all there is.
    pub fn new(limit: Option<usize>) -> (p: SearchPager)
        ensures
            p.start == 0,
            p.collected@ == Seq::<Paper>::empty(),
            p.limit == (match limit {
                Some(n) => n,
                None => usize::MAX,
            }),
    {
        let lim: usize = match limit {
            Some(n) => n,
            None => usize::MAX,
        };
        SearchPager { start: 0, limit: lim, collected: Vec::new() }
    }

    /// Whether another page should be fetched: the limit is not reached
    /// yet.
    pub fn wants_more(&self) -> (r: bool)
        ensures
            r == (self.collected@.len() < self.limit),
    {
        self.collected.len() < self.limit
    }

    /// Take one page of results and advance the offset by one chunk.
    /// Reports whether the page brought anything: an empty page ends the
    /// search.
    pub fn on_page(&mut self, papers: Vec<Paper>) -> (more: bool)
        requires
            old(self).start <= usize::MAX - PAGE_CHUNK,
        ensures
            final(self).collected@ == old(self).collected@ + papers@,
            final(self).start == old(self).start + PAGE_CHUNK,
            final(self).limit == old(self).limit,
            more == (papers@.len() > 0),
    {
        let got: bool = papers.len() > 0;
        let mut papers = papers;
        let ghost pre = self.collected@;
        let ghost pv = papers@;
        self.collected.append(&mut papers);
        assert(self.collected@ =~= pre + pv);
        self.start = self.start + PAGE_CHUNK;
        got
    }

    /// End the search: what was collected, cut down to the limit.
    pub fn finish(self) -> (r: Vec<Paper>)
        ensures
            r@ == (if self.collected@.len() <= self.limit {
                self.collected@
            } else {
                self.collected@.subrange(0, self.limit as int)
            }),
    {
        let mut out: Vec<Paper> = self.collected;
        let ghost pre = out@;
        if out.len() > self.limit {
            out.truncate(self.limit);
        }
        out
    }
}

} // verus!

verus! {

broadcast use vstd::seq_lib::group_filter_ensures;

/// Blank characters trimmed from a paragraph's ends.
pub open spec fn is_blank(c: char) -> bool {
    c == ' ' || c == '\t' || c == '\r' || c == '\n'
}

/// The end of the run of blanks starting at `i`.
pub open spec fn lead_blank_end(s: Seq<char>, i: int) -> int
    decreases s.len() - i,
{
    if 0 <= i && i < s.len() && is_blank(s[i]) {
        lead_blank_end(s, i + 1)
    } else {
        i
    }
}

/// The start of the run of blanks ending at `j`.
pub open spec fn trail_blank_start(s: Seq<char>, j: int) -> int
    decreases j,
{
    if 0 < j && j <= s.len() && is_blank(s[j - 1]) {
        trail_blank_start(s, j - 1)
    } else {
        j
    }
}

/// `s` with its leading and trailing blanks removed.
pub open spec fn trim_spec(s: Seq<char>) -> Seq<char> {
    let a = lead_blank_end(s, 0);
    let b = trail_blank_start(s, s.len() as int);
    if a <= b {
        s.subrange(a, b)
    } else {
        Seq::empty()
    }
}

proof fn lemma_lead_blank_bounds(s: Seq<char>, i: int)
    requires
        0 <= i <= s.len(),
    ensures
        i <= lead_blank_end(s, i) <= s.len(),
    decreases s.len() - i,
{
    if i < s.len() && is_blank(s[i]) {
        lemma_lead_blank_bounds(s, i + 1);
    }
}

proof fn lemma_trail_blank_bounds(s: Seq<char>, j: int)
    requires
        0 <= j <= s.len(),
    ensures
        0 <= trail_blank_start(s, j) <= j,
    decreases j,
{
    if 0 < j && is_blank(s[j - 1]) {
        lemma_trail_blank_bounds(s, j - 1);
    }
}

fn is_blank_exec(c: char) -> (r: bool)
    ensures
        r == is_blank(c),
{
    c == ' ' || c == '\t' || c == '\r' || c == '\n'
}

/// A copy of `s[a..b]`.
fn copy_range(s: &Vec<char>, a: usize, b: usize) -> (r: Vec<char>)
    requires
        a <= b <= s@.len(),
    ensures
        r@ == s@.subrange(a as int, b as int),
{
    let mut out: Vec<char> = Vec::new();
    let mut i: usize = a;
    while i < b
        invariant
            a <= i <= b <= s@.len(),
            out@ == s@.subrange(a as int, i as int),
        decreases b - i,
    {
        out.push(s[i]);
        assert(out@ =~= s@.subrange(a as int, i + 1 as int));
        i += 1;
    }
    out
}

/// A copy of `s` with leading and trailing blanks removed.
pub fn trim_chars(s: &Vec<char>) -> (r: Vec<char>)
    ensures
        r@ == trim_spec(s@),
{
    let n: usize = s.len();
    let mut a: usize = 0;
    while a < n && is_blank_exec(s[a])
        invariant
            0 <= a <= n,
            n == s@.len(),
            lead_blank_end(s@, 0) == lead_blank_end(s@, a as int),
        decreases n - a,
    {
        a += 1;
    }
    assert(lead_blank_end(s@, 0) == a as int);
    let mut b: usize = n;
    while b > 0 && is_blank_exec(s[b - 1])
        invariant
            0 <= b <= n,
            n == s@.len(),
            trail_blank_start(s@, n as int) == trail_blank_start(s@, b as int),
        decreases b,
    {
        b -= 1;
    }
    assert(trail_blank_start(s@, n as int) == b as int);
    if a <= b {
        copy_range(s, a, b)
    } else {
        let out: Vec<char> = Vec::new();
        assert(out@ =~= Seq::<char>::empty());
        out
    }
}

/// The position of the first blank-line separator at or after `i`, or
/// the length when there is none.
pub open spec fn first_sep(s: Seq<char>, i: int) -> int
    decreases s.len() - i,
{
    if 0 <= i && i + 2 <= s.len() {
        if s[i] == '\n' && s[i + 1] == '\n' {
            i
        } else {
            first_sep(s, i + 1)
        }
    } else {
        s.len() as int
    }
}

/// `s` cut at each blank-line separator, separators dropped.
pub open spec fn split_paras(s: Seq<char>) -> Seq<Seq<char>>
    decreases s.len(),
{
    let k = first_sep(s, 0);
    if 0 <= k && k + 2 <= s.len() {
        seq![s.subrange(0, k)] + split_paras(s.subrange(k + 2, s.len() as int))
    } else {
        seq![s]
    }
}

fn find_sep(s: &Vec<char>) -> (k: usize)
    ensures
        k as int == first_sep(s@, 0),
        k <= s@.len(),
{
    let n: usize = s.len();
    let mut i: usize = 0;
    while i + 1 < n
        invariant
            0 <= i,
            n == s@.len(),
            i + 1 <= n || i == 0,
            first_sep(s@, 0) == first_sep(s@, i as int),
        decreases n - i,
    {
        if s[i] == '\n' && s[i + 1] == '\n' {
            assert(first_sep(s@, i as int) == i as int);
            return i;
        }
        i += 1;
    }
    assert(first_sep(s@, i as int) == s@.len());
    n
}

fn split_paras_exec(s: &Vec<char>) -> (r: Vec<Vec<char>>)
    ensures
        r@.len() == split_paras(s@).len(),
        forall|i: int| 0 <= i < r@.len() ==> (#[trigger] r@[i])@ == split_paras(s@)[i],
    decreases s@.len(),
{
    let n: usize = s.len();
    let k: usize = find_sep(s);
    if n >= 2 && k <= n - 2 {
        let head: Vec<char> = copy_range(s, 0, k);
        let tail: Vec<char> = copy_range(s, k + 2, n);
        let mut rest: Vec<Vec<char>> = split_paras_exec(&tail);
        let ghost pre = rest@;
        rest.insert(0, head);
        proof {
            assert(rest@ =~= seq![head] + pre);
            assert forall|i: int| 0 <= i < rest@.len() implies (#[trigger] rest@[i])@ == split_paras(
                s@,
            )[i] by {
                if i > 0 {
                    assert(rest@[i] == pre[i - 1]);
                }
            }
        }
        rest
    } else {
        let whole: Vec<char> = copy_range(s, 0, n);
        let mut out: Vec<Vec<char>> = Vec::new();
        out.push(whole);
        proof {
            assert(s@.subrange(0, n as int) =~= s@);
            assert(split_paras(s@) =~= seq![s@]);
        }
        out
    }
}

/// The paragraphs kept from a text: each piece trimmed, the empty ones
/// dropped.
pub open spec fn kept_paras(s: Seq<char>) -> Seq<Seq<char>> {
    split_paras(s).map_values(|p: Seq<char>| trim_spec(p)).filter(|p: Seq<char>| p.len() > 0)
}

/// Cut a fetched text into paragraphs at blank lines: each paragraph
/// trimmed, empty ones dropped, the rest numbered from one in four
/// zero-padded places.
pub fn split_paragraphs(text: &str) -> (r: Vec<Paragraph>)
    ensures
        r@.len() == kept_paras(text@).len(),
        forall|i: int| 0 <= i < r@.len() ==> {
            &&& (#[trigger] r@[i]).text@ == kept_paras(text@)[i]
            &&& r@[i].number@ == crate::strutil::pad4_spec((i + 1) as nat)
            &&& r@[i].id@ == Seq::<char>::empty()
        },
{
    let cs: Vec<char> = crate::strutil::chars_vec(text);
    let parts: Vec<Vec<char>> = split_paras_exec(&cs);
    let ghost mp = split_paras(text@).map_values(|p: Seq<char>| trim_spec(p));
    let ghost keep = |p: Seq<char>| p.len() > 0;
    let mut out: Vec<Paragraph> = Vec::new();
    let mut i: usize = 0;
    while i < parts.len()
        invariant
            0 <= i <= parts@.len(),
            parts@.len() == split_paras(text@).len(),
            forall|q: int| 0 <= q < parts@.len() ==> (#[trigger] parts@[q])@ == split_paras(
                text@,
            )[q],
            mp == split_paras(text@).map_values(|p: Seq<char>| trim_spec(p)),
            keep == (|p: Seq<char>| p.len() > 0),
            out@.len() == mp.take(i as int).filter(keep).len(),
            forall|q: int| 0 <= q < out@.len() ==> {
                &&& (#[trigger] out@[q]).text@ == mp.take(i as int).filter(keep)[q]
                &&& out@[q].number@ == crate::strutil::pad4_spec((q + 1) as nat)
                &&& out@[q].id@ == Seq::<char>::empty()
            },
        decreases parts@.len() - i,
    {
        let t: Vec<char> = trim_chars(&parts[i]);
        proof {
            reveal(Seq::filter);
            assert(mp.take(i + 1 as int).drop_last() =~= mp.take(i as int));
            assert(mp.take(i + 1 as int).last() == mp[i as int]);
            assert(mp[i as int] == trim_spec(parts@[i as int]@));
        }
        if t.len() > 0 {
            let n: usize = out.len();
            proof {
                assert(mp.take(i as int).filter(keep).len() <= mp.take(i as int).len());
            }
            let num: String = crate::strutil::u64_to_pad4((n as u64) + 1);
            let txt: String = crate::strutil::string_from_chars(&t);
            out.push(Paragraph { number: num, id: String::new(), text: txt });
            proof {
                assert(mp.take(i + 1 as int).filter(keep) =~= mp.take(i as int).filter(keep).push(
                    mp[i as int],
                ));
            }
        } else {
            proof {
                assert(mp.take(i + 1 as int).filter(keep) =~= mp.take(i as int).filter(keep));
            }
        }
        i += 1;
    }
    proof {
        assert(mp.take(mp.len() as int) =~= mp);
    }
    out
}

} // verus!

verus! {

/// The JSON form of one paragraph.
pub open spec fn para_jv(p: Paragraph) -> crate::json::Jv {
    crate::json::Jv::Obj(
        seq![
            ("number"@, crate::json::Jv::Str(p.number@)),
            ("id"@, crate::json::Jv::Str(p.id@)),
            ("text"@, crate::json::Jv::Str(p.text@)),
        ],
    )
}

/// The JSON form of one paper, fields in their declared order; absent
/// paragraphs are null.
pub open spec fn paper_jv(p: Paper) -> crate::json::Jv {
    crate::json::Jv::Obj(
        seq![
            ("id"@, crate::json::Jv::Str(p.id@)),
            ("title"@, crate::json::Jv::Str(p.title@)),
            (
                "authors"@,
                crate::json::Jv::Arr(
                    p.authors@.map_values(|a: String| crate::json::Jv::Str(a@)),
                ),
            ),
            ("summary"@, crate::json::Jv::Str(p.summary@)),
            ("published_date"@, crate::json::Jv::Str(p.published_date@)),
            ("url"@, crate::json::Jv::Str(p.url@)),
            ("pdf_url"@, crate::json::Jv::Str(p.pdf_url@)),
            (
                "description_paragraphs"@,
                match p.description_paragraphs {
                    Option::None => crate::json::Jv::Null,
                    Option::Some(v) => crate::json::Jv::Arr(
                        v@.map_values(|q: Paragraph| para_jv(q)),
                    ),
                },
            ),
        ],
    )
}

fn paragraph_to_json(p: &Paragraph) -> (r: crate::json::JsonValue)
    ensures
        r@ == para_jv(*p),
{
    let mut ms: Vec<(String, crate::json::JsonValue)> = Vec::new();
    ms.push((String::from_str("number"), crate::json::JsonValue::Str(p.number.clone())));
    ms.push((String::from_str("id"), crate::json::JsonValue::Str(p.id.clone())));
    ms.push((String::from_str("text"), crate::json::JsonValue::Str(p.text.clone())));
    proof {
        crate::json::lemma_deep_members_len(ms@);
        let dm = crate::json::deep_members(ms@);
        let em = para_jv(*p)->Obj_0;
        assert(ms@.len() == 3);
        assert(dm[0] == (ms@[0].0@, crate::json::deep(ms@[0].1)));
        assert(dm[1] == (ms@[1].0@, crate::json::deep(ms@[1].1)));
        assert(dm[2] == (ms@[2].0@, crate::json::deep(ms@[2].1)));
        assert(dm =~= em);
    }
    crate::json::JsonValue::Obj(ms)
}

fn strings_to_json(xs: &Vec<String>) -> (r: crate::json::JsonValue)
    ensures
        r@ == crate::json::Jv::Arr(xs@.map_values(|a: String| crate::json::Jv::Str(a@))),
{
    let mut items: Vec<crate::json::JsonValue> = Vec::new();
    let mut i: usize = 0;
    while i < xs.len()
        invariant
            0 <= i <= xs@.len(),
            crate::json::deep_items(items@) == xs@.take(i as int).map_values(
                |a: String| crate::json::Jv::Str(a@),
            ),
            items@.len() == i,
        decreases xs@.len() - i,
    {
        let ghost pre = items@;
        items.push(crate::json::JsonValue::Str(xs[i].clone()));
        proof {
            crate::json::lemma_deep_items_snoc(items@);
            assert(items@.drop_last() =~= pre);
            assert(crate::json::deep_items(items@) =~= xs@.take(i + 1 as int).map_values(
                |a: String| crate::json::Jv::Str(a@),
            ));
        }
        i += 1;
    }
    proof {
        assert(xs@.take(xs@.len() as int) =~= xs@);
    }
    crate::json::JsonValue::Arr(items)
}

fn paragraphs_to_json(ps: &Vec<Paragraph>) -> (r: crate::json::JsonValue)
    ensures
        r@ == crate::json::Jv::Arr(ps@.map_values(|q: Paragraph| para_jv(q))),
{
    let mut items: Vec<crate::json::JsonValue> = Vec::new();
    let mut i: usize = 0;
    while i < ps.len()
        invariant
            0 <= i <= ps@.len(),
            crate::json::deep_items(items@) == ps@.take(i as int).map_values(
                |q: Paragraph| para_jv(q),
            ),
            items@.len() == i,
        decreases ps@.len() - i,
    {
        let ghost pre = items@;
        let pj: crate::json::JsonValue = paragraph_to_json(&ps[i]);
        items.push(pj);
        proof {
            crate::json::lemma_deep_items_snoc(items@);
            assert(items@.drop_last() =~= pre);
            assert(crate::json::deep_items(items@) =~= ps@.take(i + 1 as int).map_values(
                |q: Paragraph| para_jv(q),
            ));
        }
        i += 1;
    }
    proof {
        assert(ps@.take(ps@.len() as int) =~= ps@);
    }
    crate::json::JsonValue::Arr(items)
}

/// The JSON value of one paper.
pub fn paper_to_json(p: &Paper) -> (r: crate::json::JsonValue)
    ensures
        r@ == paper_jv(*p),
{
    let authors: crate::json::JsonValue = strings_to_json(&p.authors);
    let paras: crate::json::JsonValue = match &p.description_paragraphs {
        Some(v) => paragraphs_to_json(v),
        None => crate::json::JsonValue::Null,
    };
    let mut ms: Vec<(String, crate::json::JsonValue)> = Vec::new();
    ms.push((String::from_str("id"), crate::json::JsonValue::Str(p.id.clone())));
    ms.push((String::from_str("title"), crate::json::JsonValue::Str(p.title.clone())));
    ms.push((String::from_str("authors"), authors));
    ms.push((String::from_str("summary"), crate::json::JsonValue::Str(p.summary.clone())));
    ms.push((
        String::from_str("published_date"),
        crate::json::JsonValue::Str(p.published_date.clone()),
    ));
    ms.push((String::from_str("url"), crate::json::JsonValue::Str(p.url.clone())));
    ms.push((String::from_str("pdf_url"), crate::json::JsonValue::Str(p.pdf_url.clone())));
    ms.push((String::from_str("description_paragraphs"), paras));
    proof {
        crate::json::lemma_deep_members_len(ms@);
        let dm = crate::json::deep_members(ms@);
        let em = paper_jv(*p)->Obj_0;
        assert(ms@.len() == 8);
        assert(dm[0] == (ms@[0].0@, crate::json::deep(ms@[0].1)));
        assert(dm[1] == (ms@[1].0@, crate::json::deep(ms@[1].1)));
        assert(dm[2] == (ms@[2].0@, crate::json::deep(ms@[2].1)));
        assert(dm[3] == (ms@[3].0@, crate::json::deep(ms@[3].1)));
        assert(dm[4] == (ms@[4].0@, crate::json::deep(ms@[4].1)));
        assert(dm[5] == (ms@[5].0@, crate::json::deep(ms@[5].1)));
        assert(dm[6] == (ms@[6].0@, crate::json::deep(ms@[6].1)));
        assert(dm[7] == (ms@[7].0@, crate::json::deep(ms@[7].1)));
        assert(dm =~= em);
    }
    crate::json::JsonValue::Obj(ms)
}

/// The serialized JSON of one paper.
pub fn paper_json_string(p: &Paper) -> (r: String)
    ensures
        r@ == crate::json::ser(paper_jv(*p)),
{
    let v: crate::json::JsonValue = paper_to_json(p);
    crate::json::to_json_string(&v)
}

/// The serialized JSON of a list of papers.
pub fn papers_json_string(ps: &Vec<Paper>) -> (r: String)
    ensures
        r@ == crate::json::ser(
            crate::json::Jv::Arr(ps@.map_values(|p: Paper| paper_jv(p))),
        ),
{
    let mut items: Vec<crate::json::JsonValue> = Vec::new();
    let mut i: usize = 0;
    while i < ps.len()
        invariant
            0 <= i <= ps@.len(),
            crate::json::deep_items(items@) == ps@.take(i as int).map_values(
                |p: Paper| paper_jv(p),
            ),
            items@.len() == i,
        decreases ps@.len() - i,
    {
        let ghost pre = items@;
        let pj: crate::json::JsonValue = paper_to_json(&ps[i]);
        items.push(pj);
        proof {
            crate::json::lemma_deep_items_snoc(items@);
            assert(items@.drop_last() =~= pre);
            assert(crate::json::deep_items(items@) =~= ps@.take(i + 1 as int).map_values(
                |p: Paper| paper_jv(p),
            ));
        }
        i += 1;
    }
    proof {
        assert(ps@.take(ps@.len() as int) =~= ps@);
    }
    let v = crate::json::JsonValue::Arr(items);
    crate::json::to_json_string(&v)
}

} // verus!

verus! {

/// The string bound to `key`, if it is there and is a string.
pub open spec fn str_field(
    ms: Seq<(Seq<char>, crate::json::Jv)>,
    key: Seq<char>,
) -> Option<Seq<char>> {
    match crate::wire::obj_lookup(ms, key) {
        Option::Some(crate::json::Jv::Str(t)) => Option::Some(t),
        _ => Option::None,
    }
}

/// Whether a value has everything a listed paper needs: the six string
/// fields and an array of author name strings.
pub open spec fn paper_shape(v: crate::json::Jv) -> bool {
    &&& v matches crate::json::Jv::Obj(ms)
    &&& str_field(v->Obj_0, "id"@) is Some
    &&& str_field(v->Obj_0, "title"@) is Some
    &&& str_field(v->Obj_0, "summary"@) is Some
    &&& str_field(v->Obj_0, "published_date"@) is Some
    &&& str_field(v->Obj_0, "url"@) is Some
    &&& str_field(v->Obj_0, "pdf_url"@) is Some
    &&& (crate::wire::obj_lookup(v->Obj_0, "authors"@) matches Option::Some(a) && a matches
        crate::json::Jv::Arr(xs) && (forall|i: int|
        0 <= i < xs.len() ==> (#[trigger] xs[i]) matches crate::json::Jv::Str(_)))
}

/// Whether some listed item lacks a field a paper needs.
pub open spec fn some_paper_bad(xs: Seq<crate::json::Jv>) -> bool {
    exists|i: int| 0 <= i < xs.len() && !paper_shape(#[trigger] xs[i])
}

/// Whether every listed item has what a paper needs.
pub open spec fn papers_all_match(xs: Seq<crate::json::Jv>, ps: Seq<Paper>) -> bool {
    xs.len() == ps.len() && (forall|i: int| 0 <= i < xs.len() ==> paper_matches(
        #[trigger] xs[i],
        ps[i],
    ))
}

/// Whether `p` is exactly the paper that `v` lists: each field read from
/// the corresponding member, and no paragraphs yet.
pub open spec fn paper_matches(v: crate::json::Jv, p: Paper) -> bool {
    &&& v matches crate::json::Jv::Obj(ms)
    &&& str_field(v->Obj_0, "id"@) == Option::Some(p.id@)
    &&& str_field(v->Obj_0, "title"@) == Option::Some(p.title@)
    &&& str_field(v->Obj_0, "summary"@) == Option::Some(p.summary@)
    &&& str_field(v->Obj_0, "published_date"@) == Option::Some(p.published_date@)
    &&& str_field(v->Obj_0, "url"@) == Option::Some(p.url@)
    &&& str_field(v->Obj_0, "pdf_url"@) == Option::Some(p.pdf_url@)
    &&& (crate::wire::obj_lookup(v->Obj_0, "authors"@) matches Option::Some(a) && a matches
        crate::json::Jv::Arr(xs) && xs == p.authors@.map_values(
        |s: String| crate::json::Jv::Str(s@),
    ))
    &&& p.description_paragraphs is None
}

fn strings_from_json(items: &Vec<crate::json::JsonValue>) -> (r: Option<Vec<String>>)
    ensures
        match r {
            Some(xs) => crate::json::deep_items(items@) == xs@.map_values(
                |s: String| crate::json::Jv::Str(s@),
            ),
            None => !(forall|i: int|
                0 <= i < crate::json::deep_items(items@).len()
                    ==> (#[trigger] crate::json::deep_items(items@)[i]) matches
                    crate::json::Jv::Str(_)),
        },
{
    proof {
        crate::json::lemma_deep_items_len(items@);
    }
    let mut out: Vec<String> = Vec::new();
    let mut i: usize = 0;
    while i < items.len()
        invariant
            0 <= i <= items@.len(),
            crate::json::deep_items(items@).len() == items@.len(),
            forall|q: int| 0 <= q < items@.len() ==> crate::json::deep_items(items@)[q]
                == crate::json::deep(#[trigger] items@[q]),
            out@.len() == i,
            forall|q: int| 0 <= q < i ==> crate::json::deep_items(items@)[q]
                == crate::json::Jv::Str((#[trigger] out@[q])@),
        decreases items@.len() - i,
    {
        match &items[i] {
            crate::json::JsonValue::Str(s) => {
                out.push(s.clone());
            },
            _ => {
                assert(!(crate::json::deep_items(items@)[i as int] matches crate::json::Jv::Str(
                    _,
                )));
                return None;
            },
        }
        i += 1;
    }
    proof {
        let di = crate::json::deep_items(items@);
        let mo = out@.map_values(|s: String| crate::json::Jv::Str(s@));
        assert(di =~= mo);
    }
    Some(out)
}

/// Read one listed paper out of a script-reported value: every field
/// present and of the right shape, or nothing.
pub fn parse_paper(v: &crate::json::JsonValue) -> (r: Option<Paper>)
    ensures
        r is Some <==> paper_shape(v@),
        r matches Some(p) ==> paper_matches(v@, p),
{
    match v {
        crate::json::JsonValue::Obj(ms) => {
            let id: String = match crate::wire::obj_get(ms, "id") {
                Some(crate::json::JsonValue::Str(s)) => s.clone(),
                _ => {
                    return None;
                },
            };
            let title: String = match crate::wire::obj_get(ms, "title") {
                Some(crate::json::JsonValue::Str(s)) => s.clone(),
                _ => {
                    return None;
                },
            };
            let summary: String = match crate::wire::obj_get(ms, "summary") {
                Some(crate::json::JsonValue::Str(s)) => s.clone(),
                _ => {
                    return None;
                },
            };
            let published_date: String = match crate::wire::obj_get(ms, "published_date") {
                Some(crate::json::JsonValue::Str(s)) => s.clone(),
                _ => {
                    return None;
                },
            };
            let url: String = match crate::wire::obj_get(ms, "url") {
                Some(crate::json::JsonValue::Str(s)) => s.clone(),
                _ => {
                    return None;
                },
            };
            let pdf_url: String = match crate::wire::obj_get(ms, "pdf_url") {
                Some(crate::json::JsonValue::Str(s)) => s.clone(),
                _ => {
                    return None;
                },
            };
            let authors: Vec<String> = match crate::wire::obj_get(ms, "authors") {
                Some(crate::json::JsonValue::Arr(items)) => {
                    match strings_from_json(items) {
                        Some(xs) => xs,
                        None => {
                            return None;
                        },
                    }
                },
                _ => {
                    return None;
                },
            };
            Some(
                Paper {
                    id,
                    title,
                    authors,
                    summary,
                    published_date,
                    url,
                    pdf_url,
                    description_paragraphs: None,
                },
            )
        },
        _ => None,
    }
}

/// Read the papers a results-extraction script reported: a JSON array of
/// paper objects, or nothing if the text does not parse to that.
pub fn parse_papers_json(text: &str) -> (r: Option<Vec<Paper>>)
    ensures
        r is Some ==> (match crate::json::p_doc(text@) {
            Some(d) => match d {
                crate::json::Jv::Arr(xs) => papers_all_match(xs, r->0@),
                _ => false,
            },
            None => false,
        }),
        r is None ==> (match crate::json::p_doc(text@) {
            Some(d) => match d {
                crate::json::Jv::Arr(xs) => some_paper_bad(xs),
                _ => true,
            },
            None => true,
        }),
{
    let parsed: Option<crate::json::JsonValue> = crate::json::parse_json(text);
    match parsed {
        Some(crate::json::JsonValue::Arr(items)) => {
            proof {
                crate::json::lemma_deep_items_len(items@);
            }
            let mut out: Vec<Paper> = Vec::new();
            let mut i: usize = 0;
            while i < items.len()
                invariant
                    0 <= i <= items@.len(),
                    crate::json::p_doc(text@) == Some(
                        crate::json::Jv::Arr(crate::json::deep_items(items@)),
                    ),
                    crate::json::deep_items(items@).len() == items@.len(),
                    forall|q: int| 0 <= q < items@.len() ==> crate::json::deep_items(items@)[q]
                        == crate::json::deep(#[trigger] items@[q]),
                    out@.len() == i,
                    forall|q: int| 0 <= q < i ==> paper_matches(
                        crate::json::deep_items(items@)[q],
                        #[trigger] out@[q],
                    ),
                decreases items@.len() - i,
            {
                match parse_paper(&items[i]) {
                    Some(p) => {
                        out.push(p);
                    },
                    None => {
                        proof {
                            let di = crate::json::deep_items(items@);
                            assert(0 <= (i as int) && (i as int) < di.len()
                                && !paper_shape(di[i as int]));
                            assert(some_paper_bad(di));
                        }
                        return None;
                    },
                }
                i += 1;
            }
            proof {
                assert(papers_all_match(crate::json::deep_items(items@), out@));
            }
            Some(out)
        },
        Some(_) => None,
        None => None,
    }
}

} // verus!
