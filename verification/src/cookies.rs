//! Authentication cookies, as plain values. The library parses the two
//! cookie-export shapes into [`RawCookie`] records; reading the export file
//! and loading the records into an HTTP cookie jar happen outside the
//! library.

use vstd::prelude::*;
use crate::api::req_string;
use crate::api::spec_req_string;
use crate::blob::json_of;
use crate::blob::json_view;
use crate::blob::json_views;
use crate::blob::lemma_json_views_index;
use crate::blob::parse_json;
use crate::blob::JsonValue;
use crate::blob::JsonView;
use crate::util::push_char;
use crate::util::split_char;
use crate::util::split_char_exec;

verus! {

/// One cookie from a browser export: the host it belongs to, its name, and
/// its content.
pub struct RawCookie {
    pub host: String,
    pub name: String,
    pub content: String,
}

impl View for RawCookie {
    type V = (Seq<char>, Seq<char>, Seq<char>);

    open spec fn view(&self) -> (Seq<char>, Seq<char>, Seq<char>) {
        (self.host@, self.name@, self.content@)
    }
}

impl DeepView for RawCookie {
    type V = (Seq<char>, Seq<char>, Seq<char>);

    open spec fn deep_view(&self) -> (Seq<char>, Seq<char>, Seq<char>) {
        self.view()
    }
}

/// The scheme prepended to the bare domains of a tab-separated cookie
/// export.
pub open spec fn https_prefix() -> Seq<char> {
    seq!['h', 't', 't', 'p', 's', ':', '/', '/']
}

/// The cookie one line of a tab-separated export yields: none for a comment
/// line or one without exactly seven columns; otherwise the scheme-prefixed
/// first column as host, the sixth as name, the seventh as content.
pub open spec fn line_cookie(line: Seq<char>) -> Option<(Seq<char>, Seq<char>, Seq<char>)> {
    if line.len() > 0 && line[0] == '#' {
        None
    } else {
        let cols = split_char(line, '\t');
        if cols.len() == 7 {
            Some((https_prefix() + cols[0], cols[5], cols[6]))
        } else {
            None
        }
    }
}

/// The cookies of a sequence of export lines, in order.
pub open spec fn cookies_of_lines(lines: Seq<Seq<char>>) -> Seq<(Seq<char>, Seq<char>, Seq<char>)>
    decreases lines.len(),
{
    if lines.len() == 0 {
        Seq::empty()
    } else {
        (match line_cookie(lines[0]) {
            Some(c) => seq![c],
            None => Seq::empty(),
        }) + cookies_of_lines(lines.drop_first())
    }
}

/// The cookies of a whole tab-separated export.
pub open spec fn text_cookies(s: Seq<char>) -> Seq<(Seq<char>, Seq<char>, Seq<char>)> {
    cookies_of_lines(split_char(s, '\n'))
}

/// Parses a browser-exported tab-separated cookie file: skips comment lines,
/// takes host, name and content from the seven-column lines, and prefixes the
/// bare domain with a scheme.
pub fn get_text_cookies(content: &str) -> (r: Vec<RawCookie>)
    ensures
        r.deep_view() == text_cookies(content@),
{
    let lines = split_char_exec(content, '\n');
    let mut r: Vec<RawCookie> = Vec::new();
    let mut i: usize = 0;
    proof {
        assert(lines.deep_view().skip(0) =~= lines.deep_view());
    }
    while i < lines.len()
        invariant
            i <= lines.len(),
            lines.deep_view() == split_char(content@, '\n'),
            text_cookies(content@) == r.deep_view() + cookies_of_lines(
                lines.deep_view().skip(i as int),
            ),
        decreases lines.len() - i,
    {
        let line = &lines[i];
        let ghost rest = lines.deep_view().skip(i as int);
        proof {
            assert(rest[0] == line@);
            assert(rest.drop_first() =~= lines.deep_view().skip(i + 1));
        }
        let is_comment = line.as_str().unicode_len() > 0 && line.as_str().get_char(0) == '#';
        if !is_comment {
            let cols = split_char_exec(line.as_str(), '\t');
            if cols.len() == 7 {
                let mut host = String::new();
                host = host.concat("https://");
                proof {
                    reveal_strlit("https://");
                    assert(host@ =~= https_prefix());
                }
                let host = host.concat(cols[0].as_str());
                let cookie = RawCookie {
                    host,
                    name: cols[5].clone(),
                    content: cols[6].clone(),
                };
                proof {
                    assert(cols.deep_view()[0] == cols@[0]@);
                    assert(cols.deep_view()[5] == cols@[5]@);
                    assert(cols.deep_view()[6] == cols@[6]@);
                    assert(line_cookie(line@) == Some(cookie@));
                }
                r.push(cookie);
                proof {
                    assert(r.deep_view() =~= r.deep_view().drop_last().push(cookie@));
                }
            } else {
                proof {
                    assert(line_cookie(line@) is None);
                }
            }
        } else {
            proof {
                assert(line_cookie(line@) is None);
            }
        }
        i += 1;
    }
    proof {
        assert(lines.deep_view().skip(lines.len() as int) =~= Seq::<Seq<char>>::empty());
        assert(r.deep_view() =~= r.deep_view() + cookies_of_lines(Seq::empty()));
    }
    r
}

/// The cookie a JSON export entry denotes: its raw host, name and content.
pub open spec fn spec_cookie(v: JsonView) -> Option<(Seq<char>, Seq<char>, Seq<char>)> {
    match spec_req_string(v, "Host raw"@) {
        None => None,
        Some(host) => match spec_req_string(v, "Name raw"@) {
            None => None,
            Some(name) => match spec_req_string(v, "Content raw"@) {
                None => None,
                Some(content) => Some((host, name, content)),
            },
        },
    }
}

/// The cookies a JSON export array denotes, in order.
pub open spec fn spec_cookies(elems: Seq<JsonView>) -> Option<Seq<(Seq<char>, Seq<char>, Seq<char>)>>
    decreases elems.len(),
{
    if elems.len() == 0 {
        Some(Seq::empty())
    } else {
        match spec_cookies(elems.drop_last()) {
            None => None,
            Some(s) => match spec_cookie(elems.last()) {
                None => None,
                Some(c) => Some(s.push(c)),
            },
        }
    }
}

proof fn lemma_cookies_none(elems: Seq<JsonView>, i: int)
    requires
        0 <= i < elems.len(),
        spec_cookie(elems[i]) is None,
    ensures
        spec_cookies(elems) is None,
    decreases elems.len(),
{
    if i < elems.len() - 1 {
        assert(elems.drop_last()[i] == elems[i]);
        lemma_cookies_none(elems.drop_last(), i);
    }
}

/// The cookies a JSON value denotes: an array of cookie objects.
pub open spec fn spec_cookie_array(v: JsonView) -> Option<Seq<(Seq<char>, Seq<char>, Seq<char>)>> {
    match v {
        JsonView::Arr(elems) => spec_cookies(elems),
        _ => None,
    }
}

/// Reads an array of cookie objects.
fn parse_cookie_array(v: &JsonValue) -> (r: Option<Vec<RawCookie>>)
    ensures
        match spec_cookie_array(json_view(*v)) {
            Some(cs) => r matches Some(out) && out.deep_view() == cs,
            None => r is None,
        },
{
    match v {
        JsonValue::Arr(elems) => {
            let ghost evs = json_views(elems@);
            let mut cookies: Vec<RawCookie> = Vec::new();
            let n = elems.len();
            let mut i: usize = 0;
            proof {
                lemma_json_views_index(elems@, 0);
                assert(evs.take(0) =~= Seq::<JsonView>::empty());
                assert(cookies.deep_view() =~= Seq::<(Seq<char>, Seq<char>, Seq<char>)>::empty());
            }
            while i < n
                invariant
                    i <= n,
                    n == elems@.len(),
                    evs == json_views(elems@),
                    evs.len() == n,
                    json_view(*v) == JsonView::Arr(evs),
                    spec_cookies(evs.take(i as int)) == Some(cookies.deep_view()),
                decreases n - i,
            {
                let entry = &elems[i];
                proof {
                    lemma_json_views_index(elems@, i as int);
                    assert(evs.take(i + 1).drop_last() =~= evs.take(i as int));
                    assert(evs.take(i + 1).last() == evs[i as int]);
                }
                let host = match req_string(entry, "Host raw") {
                    Ok(s) => s,
                    Err(_) => {
                        proof {
                            lemma_cookies_none(evs, i as int);
                        }
                        return None;
                    },
                };
                let name = match req_string(entry, "Name raw") {
                    Ok(s) => s,
                    Err(_) => {
                        proof {
                            lemma_cookies_none(evs, i as int);
                        }
                        return None;
                    },
                };
                let content = match req_string(entry, "Content raw") {
                    Ok(s) => s,
                    Err(_) => {
                        proof {
                            lemma_cookies_none(evs, i as int);
                        }
                        return None;
                    },
                };
                let cookie = RawCookie { host, name, content };
                let ghost cdv = cookies.deep_view();
                cookies.push(cookie);
                proof {
                    assert(cookies.deep_view() =~~= cdv.push(spec_cookie(evs[i as int])->Some_0));
                }
                i += 1;
            }
            proof {
                assert(evs.take(n as int) =~= evs);
            }
            Some(cookies)
        },
        _ => None,
    }
}

/// The cookies given JSON text denotes: an array of objects carrying the
/// raw host, name and content of each cookie; nothing when the text is not
/// such an array.
pub open spec fn spec_json_cookies(s: Seq<char>) -> Option<Seq<(Seq<char>, Seq<char>, Seq<char>)>> {
    match json_of(s) {
        Some(v) => spec_cookie_array(v),
        None => None,
    }
}

/// Parses a structured cookie export: a JSON array of objects carrying the
/// raw host, name and content of each cookie. Nothing exactly when the text
/// is not valid JSON or not of that shape.
pub fn get_json_cookies(json: &str) -> (r: Option<Vec<RawCookie>>)
    ensures
        match spec_json_cookies(json@) {
            Some(cs) => r matches Some(v) && v.deep_view() == cs,
            None => r is None,
        },
{
    let v = match parse_json(json) {
        Some(v) => v,
        None => {
            return None;
        },
    };
    parse_cookie_array(&v)
}

/// The header line under which one cookie joins the HTTP jar: its name and
/// content, and the domain it is scoped to.
pub fn cookie_header_value(name: &str, content: &str, domain: &str) -> (r: String)
    ensures
        r@ == name@ + "="@ + content@ + "; Domain="@ + domain@,
{
    let mut out = name.to_owned();
    push_char(&mut out, '=');
    let mut out = out.concat(content);
    let mut out = out.concat("; Domain=");
    let out = out.concat(domain);
    proof {
        reveal_strlit("=");
        assert(out@ =~= name@ + "="@ + content@ + "; Domain="@ + domain@);
    }
    out
}

} // verus!
