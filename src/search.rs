//! Pulling links out of search result pages, working on the page's UTF-8 bytes.

use vstd::prelude::*;
use vstd::utf8::{encode_utf8, valid_utf8};
use crate::text::choose_one;

verus! {

/// `needle` occurs in `hay` starting at byte `i`.
pub open spec fn matches_at(hay: Seq<u8>, needle: Seq<u8>, i: int) -> bool {
    0 <= i && i + needle.len() <= hay.len() && hay.subrange(i, i + needle.len()) == needle
}

/// The first start at or after `from` where `needle` occurs.
pub open spec fn first_match_from(hay: Seq<u8>, needle: Seq<u8>, from: int) -> Option<int>
    decreases hay.len() + 1 - from,
{
    if from < 0 || from + needle.len() > hay.len() {
        None
    } else if matches_at(hay, needle, from) {
        Some(from)
    } else {
        first_match_from(hay, needle, from + 1)
    }
}

/// The last start at or before `at` where `needle` occurs.
pub open spec fn last_match_from(hay: Seq<u8>, needle: Seq<u8>, at: int) -> Option<int>
    decreases at + 1,
{
    if at < 0 {
        None
    } else if matches_at(hay, needle, at) {
        Some(at)
    } else {
        last_match_from(hay, needle, at - 1)
    }
}

pub open spec fn quote() -> Seq<u8> {
    seq![0x22u8]
}

/// The bytes of `/watch?v=`.
pub open spec fn watch_marker() -> Seq<u8> {
    seq![0x2fu8, 0x77u8, 0x61u8, 0x74u8, 0x63u8, 0x68u8, 0x3fu8, 0x76u8, 0x3du8]
}

/// Where the path of the first video link on a result page lies: from the
/// first `/watch?v=` up to the next quote.
pub open spec fn video_span(page: Seq<u8>) -> Option<(int, int)> {
    match first_match_from(page, watch_marker(), 0) {
        None => None,
        Some(p) => match first_match_from(page, quote(), p) {
            None => None,
            Some(e) => Some((p, e)),
        },
    }
}

/// The quoted text around a match of an image extension at byte `i`: from
/// after the last quote before `i` up to the first quote at or after `i`.
pub open spec fn image_span(page: Seq<u8>, i: int) -> Option<(int, int)> {
    if i > page.len() {
        None
    } else {
    match last_match_from(page.take(i), quote(), i - 1) {
        None => None,
        Some(s) => match first_match_from(page, quote(), i) {
            None => None,
            Some(e) => Some((s + 1, e)),
        },
    }
    }
}

/// The texts that a page yields for a sequence of match starts: the quoted
/// span around each, kept where it is valid UTF-8.
pub open spec fn image_texts(page: Seq<u8>, starts: Seq<usize>) -> Seq<Seq<char>>
    decreases starts.len(),
{
    if starts.len() == 0 {
        Seq::empty()
    } else {
        let front = image_texts(page, starts.drop_last());
        match image_span(page, starts.last() as int) {
            Some((s, e)) => if valid_utf8(page.subrange(s, e)) {
                front.push(decode_of(page.subrange(s, e)))
            } else {
                front
            },
            None => front,
        }
    }
}

/// The image addresses on a page: the quoted text around each match of an
/// image extension.
pub open spec fn page_images(page: Seq<char>) -> Seq<Seq<char>> {
    image_texts(encode_utf8(page), regex_match_starts(".jpg|.png|.jpeg"@, page))
}

/// The characters that valid UTF-8 bytes encode.
pub open spec fn decode_of(b: Seq<u8>) -> Seq<char> {
    vstd::utf8::decode_utf8(b)
}

/// Where `regex::Regex::find_iter` finds its successive matches of a
/// pattern in a text, as byte offsets.
pub uninterp spec fn regex_match_starts(pattern: Seq<char>, hay: Seq<char>) -> Seq<usize>;

/// A short pattern made only of ASCII letters and digits, `.` (any
/// character) and `|` (alternation): one that always compiles.
pub open spec fn is_simple_pattern(p: Seq<char>) -> bool {
    &&& 0 < p.len() <= 64
    &&& forall|i: int|
        0 <= i < p.len() ==> ('a' <= #[trigger] p[i] <= 'z' || 'A' <= p[i] <= 'Z' || '0' <= p[i] <= '9'
            || p[i] == '.' || p[i] == '|')
}

/// Relies on `regex::Regex::new`, `Regex::find_iter` and `Match::start`: a
/// simple pattern compiles, and the result is the byte offset where each
/// successive match starts.
#[verifier::external_body]
fn match_starts(pattern: &str, hay: &str) -> (r: Vec<usize>)
    requires
        is_simple_pattern(pattern@),
    ensures
        r@ == regex_match_starts(pattern@, hay@),
{
    regex::Regex::new(pattern).unwrap().find_iter(hay).map(|m| m.start()).collect()
}

/// Relies on `std::str::from_utf8`: the text that the bytes encode, when
/// they are valid UTF-8.
#[verifier::external_body]
fn text_of_bytes(b: &[u8]) -> (r: Option<String>)
    ensures
        r is Some <==> valid_utf8(b@),
        r matches Some(t) ==> t@ == decode_of(b@),
{
    std::str::from_utf8(b).ok().map(|t| t.to_string())
}

/// The UTF-8 bytes of a text.
fn page_bytes(page: &str) -> (r: Vec<u8>)
    ensures
        r@ == encode_utf8(page@),
{
    let b = page.as_bytes();
    let mut r: Vec<u8> = Vec::new();
    let mut i: usize = 0;
    while i < b.len()
        invariant
            i <= b@.len(),
            b@ == encode_utf8(page@),
            r@ == b@.take(i as int),
        decreases b@.len() - i,
    {
        r.push(b[i]);
        i = i + 1;
        assert(r@ =~= b@.take(i as int));
    }
    assert(b@.take(i as int) =~= b@);
    r
}

/// Whether `needle` occurs in `hay` starting at byte `at`.
fn occurs_at(hay: &Vec<u8>, needle: &Vec<u8>, at: usize) -> (r: bool)
    ensures
        r == matches_at(hay@, needle@, at as int),
{
    let n = hay.len();
    let m = needle.len();
    if m > n || at > n - m {
        return false;
    }
    let mut k: usize = 0;
    while k < m
        invariant
            n == hay@.len(),
            m == needle@.len(),
            at + m <= n,
            k <= m,
            forall|j: int| 0 <= j < k ==> hay@[at + j] == needle@[j],
        decreases m - k,
    {
        if hay[at + k] != needle[k] {
            assert(hay@.subrange(at as int, at + m)[k as int] != needle@[k as int]);
            return false;
        }
        k = k + 1;
    }
    assert(hay@.subrange(at as int, at + m) =~= needle@);
    true
}

/// The first start at or after `from` where `needle` occurs in `hay`.
pub fn find_from(hay: &Vec<u8>, needle: &Vec<u8>, from: usize) -> (r: Option<usize>)
    ensures
        match r {
            Some(i) => first_match_from(hay@, needle@, from as int) == Some(i as int),
            None => first_match_from(hay@, needle@, from as int) is None,
        },
    decreases hay@.len() + 1 - from,
{
    if needle.len() > hay.len() || from > hay.len() - needle.len() {
        return None;
    }
    if occurs_at(hay, needle, from) {
        Some(from)
    } else {
        proof {
            if needle@.len() == 0 {
                assert(hay@.subrange(from as int, from as int) =~= needle@);
            }
        }
        find_from(hay, needle, from + 1)
    }
}

/// The last start at or before `at` where `needle` occurs in `hay`.
pub fn rfind_from(hay: &Vec<u8>, needle: &Vec<u8>, at: usize) -> (r: Option<usize>)
    ensures
        match r {
            Some(i) => last_match_from(hay@, needle@, at as int) == Some(i as int),
            None => last_match_from(hay@, needle@, at as int) is None,
        },
    decreases at,
{
    if occurs_at(hay, needle, at) {
        Some(at)
    } else if at == 0 {
        assert(last_match_from(hay@, needle@, -1) is None);
        None
    } else {
        rfind_from(hay, needle, at - 1)
    }
}

/// The bytes `from..to` of `b`.
fn byte_span(b: &Vec<u8>, from: usize, to: usize) -> (r: Vec<u8>)
    requires
        from <= to <= b@.len(),
    ensures
        r@ == b@.subrange(from as int, to as int),
{
    let mut r: Vec<u8> = Vec::new();
    let mut i: usize = from;
    while i < to
        invariant
            from <= i <= to,
            to <= b@.len(),
            r@ == b@.subrange(from as int, i as int),
        decreases to - i,
    {
        r.push(b[i]);
        i = i + 1;
        assert(r@ =~= b@.subrange(from as int, i as int));
    }
    r
}

proof fn lemma_first_match_bounds(hay: Seq<u8>, needle: Seq<u8>, from: int, i: int)
    requires
        first_match_from(hay, needle, from) == Some(i),
    ensures
        from <= i,
        i + needle.len() <= hay.len(),
    decreases hay.len() + 1 - from,
{
    if !(from < 0 || from + needle.len() > hay.len()) && !matches_at(hay, needle, from) {
        lemma_first_match_bounds(hay, needle, from + 1, i);
    }
}

proof fn lemma_last_match_bounds(hay: Seq<u8>, needle: Seq<u8>, at: int, i: int)
    requires
        last_match_from(hay, needle, at) == Some(i),
    ensures
        0 <= i <= at,
        i + needle.len() <= hay.len(),
    decreases at + 1,
{
    if at >= 0 && !matches_at(hay, needle, at) {
        lemma_last_match_bounds(hay, needle, at - 1, i);
    }
}

/// The first video link on a result page: `https://www.youtube.com`
/// followed by the path from the first `/watch?v=` up to the next quote.
pub fn first_video_link(page: &str) -> (r: Option<String>)
    ensures
        match video_span(encode_utf8(page@)) {
            None => r is None,
            Some((p, e)) => if valid_utf8(encode_utf8(page@).subrange(p, e)) {
                r matches Some(link) && link@ == "https://www.youtube.com"@ + decode_of(
                    encode_utf8(page@).subrange(p, e),
                )
            } else {
                r is None
            },
        },
{
    let b = page_bytes(page);
    let marker: Vec<u8> = vec![0x2fu8, 0x77u8, 0x61u8, 0x74u8, 0x63u8, 0x68u8, 0x3fu8, 0x76u8, 0x3du8];
    let q: Vec<u8> = vec![0x22u8];
    assert(marker@ =~= watch_marker());
    assert(q@ =~= quote());
    let p = match find_from(&b, &marker, 0) {
        Some(p) => p,
        None => return None,
    };
    let e = match find_from(&b, &q, p) {
        Some(e) => e,
        None => return None,
    };
    proof {
        lemma_first_match_bounds(b@, marker@, 0, p as int);
        lemma_first_match_bounds(b@, q@, p as int, e as int);
    }
    let span = byte_span(&b, p, e);
    match text_of_bytes(span.as_slice()) {
        Some(path) => {
            let mut link = "https://www.youtube.com".to_owned();
            link.append(path.as_str());
            Some(link)
        },
        None => None,
    }
}

/// The quoted texts around each of the given match starts on a page, in
/// order: for a start `i`, from after the last quote before `i` up to the
/// first quote at or after it, where both exist and the text is valid UTF-8.
pub fn images_at(page: &str, starts: &Vec<usize>) -> (r: Vec<String>)
    ensures
        r@.map_values(|t: String| t@) == image_texts(encode_utf8(page@), starts@),
{
    let b = page_bytes(page);
    let q: Vec<u8> = vec![0x22u8];
    assert(q@ =~= quote());
    let mut r: Vec<String> = Vec::new();
    let mut k: usize = 0;
    while k < starts.len()
        invariant
            k <= starts@.len(),
            b@ == encode_utf8(page@),
            q@ == quote(),
            r@.map_values(|t: String| t@) == image_texts(b@, starts@.take(k as int)),
        decreases starts@.len() - k,
    {
        let i = starts[k];
        let ghost done = starts@.take(k as int);
        assert(starts@.take(k + 1).drop_last() =~= done);
        assert(starts@.take(k + 1).last() == i);
        if i <= b.len() && i > 0 {
            let prefix = byte_span(&b, 0, i);
            assert(prefix@ =~= b@.take(i as int));
            if let Some(s) = rfind_from(&prefix, &q, i - 1) {
                if let Some(e) = find_from(&b, &q, i) {
                    proof {
                        lemma_last_match_bounds(prefix@, q@, i - 1, s as int);
                        lemma_first_match_bounds(b@, q@, i as int, e as int);
                    }
                    let span = byte_span(&b, s + 1, e);
                    if let Some(text) = text_of_bytes(span.as_slice()) {
                        let ghost before = r@;
                        r.push(text);
                        assert(r@.map_values(|t: String| t@) =~= before.map_values(|t: String| t@).push(text@));
                    }
                }
            }
        } else if i == 0 {
            assert(last_match_from(b@.take(0), quote(), -1) is None);
        }
        k = k + 1;
    }
    assert(starts@.take(k as int) =~= starts@);
    r
}

/// The image addresses on a page of image search results: the quoted text
/// around each match of an image extension.
pub fn find_images_on_page(page: &str) -> (r: Vec<String>)
    ensures
        r@.map_values(|t: String| t@) == page_images(page@),
{
    proof {
        reveal_strlit(".jpg|.png|.jpeg");
    }
    let starts = match_starts(".jpg|.png|.jpeg", page);
    images_at(page, &starts)
}

pub open spec fn is_ascii_alnum(b: u8) -> bool {
    (0x30 <= b <= 0x39) || (0x41 <= b <= 0x5a) || (0x61 <= b <= 0x7a)
}

/// An upper-case hexadecimal digit.
pub open spec fn hex_upper(d: int) -> char {
    if d < 10 {
        ((0x30 + d) as u8) as char
    } else {
        ((0x37 + d) as u8) as char
    }
}

/// A byte in a URL query: ASCII letters and digits as they are, every
/// other byte as `%` and two upper-case hexadecimal digits.
pub open spec fn encode_byte(b: u8) -> Seq<char> {
    if is_ascii_alnum(b) {
        seq![b as char]
    } else {
        seq!['%', hex_upper(b as int / 16), hex_upper(b as int % 16)]
    }
}

pub open spec fn percent_encoded(b: Seq<u8>) -> Seq<char>
    decreases b.len(),
{
    if b.len() == 0 {
        Seq::empty()
    } else {
        percent_encoded(b.drop_last()) + encode_byte(b.last())
    }
}

/// Relies on `percent_encoding::utf8_percent_encode` with `NON_ALPHANUMERIC`:
/// each UTF-8 byte that is not an ASCII letter or digit becomes `%XX`.
#[verifier::external_body]
fn percent_encode(s: &str) -> (r: String)
    ensures
        r@ == percent_encoded(encode_utf8(s@)),
{
    percent_encoding::utf8_percent_encode(s, percent_encoding::NON_ALPHANUMERIC).to_string()
}

/// The address of a video search for `query`.
pub fn youtube_search_url(query: &str) -> (r: String)
    ensures
        r@ == "https://www.youtube.com/results?search_query="@ + percent_encoded(encode_utf8(query@)),
{
    let mut url = "https://www.youtube.com/results?search_query=".to_owned();
    let q = percent_encode(query);
    url.append(q.as_str());
    url
}

/// The address of an image search for `query`.
pub fn image_search_url(query: &str) -> (r: String)
    ensures
        r@ == "https://www.google.com/search?tbm=isch&q="@ + percent_encoded(encode_utf8(query@)),
{
    let mut url = "https://www.google.com/search?tbm=isch&q=".to_owned();
    let q = percent_encode(query);
    url.append(q.as_str());
    url
}

/// The bytes of `key: 'ds:1'`.
pub open spec fn results_marker() -> Seq<u8> {
    seq![0x6bu8, 0x65u8, 0x79u8, 0x3au8, 0x20u8, 0x27u8, 0x64u8, 0x73u8, 0x3au8, 0x31u8, 0x27u8]
}

/// The bytes of `</script>`.
pub open spec fn script_end() -> Seq<u8> {
    seq![0x3cu8, 0x2fu8, 0x73u8, 0x63u8, 0x72u8, 0x69u8, 0x70u8, 0x74u8, 0x3eu8]
}

/// Where the results of an image search page lie: from the first
/// `key: 'ds:1'` up to the next `</script>`.
pub open spec fn results_span(page: Seq<u8>) -> Option<(int, int)> {
    match first_match_from(page, results_marker(), 0) {
        None => None,
        Some(p) => match first_match_from(page, script_end(), p) {
            None => None,
            Some(e) => Some((p, e)),
        },
    }
}

/// The part of an image search page that holds its results.
pub fn image_results_section(page: &str) -> (r: Option<String>)
    ensures
        match results_span(encode_utf8(page@)) {
            None => r is None,
            Some((p, e)) => if valid_utf8(encode_utf8(page@).subrange(p, e)) {
                r matches Some(t) && t@ == decode_of(encode_utf8(page@).subrange(p, e))
            } else {
                r is None
            },
        },
{
    let b = page_bytes(page);
    let marker: Vec<u8> = vec![0x6bu8, 0x65u8, 0x79u8, 0x3au8, 0x20u8, 0x27u8, 0x64u8, 0x73u8, 0x3au8, 0x31u8, 0x27u8];
    let end: Vec<u8> = vec![0x3cu8, 0x2fu8, 0x73u8, 0x63u8, 0x72u8, 0x69u8, 0x70u8, 0x74u8, 0x3eu8];
    assert(marker@ =~= results_marker());
    assert(end@ =~= script_end());
    let p = match find_from(&b, &marker, 0) {
        Some(p) => p,
        None => return None,
    };
    let e = match find_from(&b, &end, p) {
        Some(e) => e,
        None => return None,
    };
    proof {
        lemma_first_match_bounds(b@, marker@, 0, p as int);
        lemma_first_match_bounds(b@, end@, p as int, e as int);
    }
    let span = byte_span(&b, p, e);
    text_of_bytes(span.as_slice())
}

/// One image address, picked at random, from the results section of an
/// image search page: `None` exactly when the page has no results section
/// in valid UTF-8, or no image in it.
pub fn random_image_on_page(page: &str) -> (r: Option<String>)
    ensures
        match results_span(encode_utf8(page@)) {
            None => r is None,
            Some((p, e)) => {
                let section = encode_utf8(page@).subrange(p, e);
                if valid_utf8(section) {
                    &&& r is Some <==> page_images(decode_of(section)).len() > 0
                    &&& r matches Some(url) ==> exists|i: int|
                        0 <= i < page_images(decode_of(section)).len() && url@ == page_images(
                            decode_of(section),
                        )[i]
                } else {
                    r is None
                }
            },
        },
{
    match image_results_section(page) {
        Some(section) => {
            let images = find_images_on_page(section.as_str());
            let picked = choose_one(&images);
            proof {
                if picked is Some {
                    let url = picked->0;
                    let i = choose|i: int| 0 <= i < images@.len() && images@[i]@ == url@;
                    assert(images@.map_values(|t: String| t@)[i] == url@);
                }
            }
            picked
        },
        None => None,
    }
}

} // verus!
