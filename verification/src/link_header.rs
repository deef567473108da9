//! ICE servers in Link headers.
//!
//! An endpoint names its ICE servers in entries such as
//! `<turn:example.com>; rel="ice-server"; username="u"; credential="p"`.

use crate::headers;
use crate::headers::all_texts;
use crate::lists;
use crate::text;
use crate::text::{
    chars_of, find_char, piece, same_text, split_at_marks, split_on, split_on_space, trimmed,
};
use reqwest::header::{HeaderMap, HeaderValue};
use vstd::prelude::*;

verus! {

/// An ICE server
#[derive(Debug, Clone)]
pub struct IceServer {
    pub urls: Vec<String>,
    pub username: String,
    pub password: String,
}

/// An ICE server, with text as characters.
pub struct IceServerView {
    pub urls: Seq<Seq<char>>,
    pub username: Seq<char>,
    pub password: Seq<char>,
}

impl View for IceServer {
    type V = IceServerView;

    open spec fn view(&self) -> IceServerView {
        IceServerView {
            urls: text::texts(self.urls@),
            username: self.username@,
            password: self.password@,
        }
    }
}

/// Whether the end of `s` lies inside quotes: an odd number of them comes
/// before it.
pub open spec fn ends_in_quotes(s: Seq<char>) -> bool
    decreases s.len(),
{
    if s.len() == 0 {
        false
    } else if s.last() == '"' {
        !ends_in_quotes(s.drop_last())
    } else {
        ends_in_quotes(s.drop_last())
    }
}

/// Marks on the commas in `s` that are not inside quotes.
pub open spec fn separators(s: Seq<char>) -> Seq<bool> {
    Seq::new(s.len(), |i: int| s[i] == ',' && !ends_in_quotes(s.take(i)))
}

/// The parts that are more than white space, trimmed.
pub open spec fn trimmed_parts(parts: Seq<Seq<char>>) -> Seq<Seq<char>>
    decreases parts.len(),
{
    if parts.len() == 0 {
        Seq::empty()
    } else {
        let before = trimmed_parts(parts.drop_last());
        let last = text::trim(parts.last());
        if last.len() == 0 {
            before
        } else {
            before.push(last)
        }
    }
}

/// The entries of a Link header value.
pub open spec fn link_entries(value: Seq<char>) -> Seq<Seq<char>> {
    trimmed_parts(text::pieces(value, separators(value)))
}

/// The value of a parameter, without quotes around it. An empty one counts as
/// none.
pub open spec fn param_value(value: Seq<char>) -> Option<Seq<char>> {
    let t = text::trim(value);
    if t.len() >= 2 && t[0] == '"' && t.last() == '"' {
        if t.len() == 2 {
            None
        } else {
            Some(t.subrange(1, t.len() - 1))
        }
    } else if t.len() == 0 {
        None
    } else {
        Some(t)
    }
}

/// What stands before the first `=` of a parameter.
pub open spec fn key_of(param: Seq<char>) -> Seq<char> {
    match text::find_from(param, '=', 0) {
        Some(i) => text::trim(param.take(i)),
        None => text::trim(param),
    }
}

/// What stands behind the first `=` of a parameter.
pub open spec fn value_of(param: Seq<char>) -> Option<Seq<char>> {
    match text::find_from(param, '=', 0) {
        Some(i) => param_value(param.skip(i + 1)),
        None => None,
    }
}

/// The value of the last parameter `key` that has one.
pub open spec fn last_value(params: Seq<Seq<char>>, key: Seq<char>) -> Option<Seq<char>> {
    lists::last_of(
        params,
        |p: Seq<char>|
            if key_of(text::trim(p)) == key {
                value_of(text::trim(p))
            } else {
                None
            },
    )
}

/// Whether a parameter says that its entry is an ICE server: `ice-server` is
/// among the words of its `rel`.
pub open spec fn names_ice_server(param: Seq<char>) -> bool {
    &&& key_of(text::trim(param)) == "rel"@
    &&& value_of(text::trim(param)) matches Some(rel) && text::pieces(
        rel,
        text::space_marks(rel),
    ).contains("ice-server"@)
}

/// The ICE server that an entry of a Link header names, if it names one.
pub open spec fn entry_server(entry: Seq<char>) -> Option<IceServerView> {
    let e = text::trim(entry);
    match text::find_from(e, '<', 0) {
        None => None,
        Some(start) => match text::find_from(e, '>', start + 1) {
            None => None,
            Some(end) => {
                let url = text::trim(e.subrange(start + 1, end));
                let rest = e.skip(end + 1);
                let params = text::pieces(rest, text::marks_of(rest, ';'));
                if url.len() > 0 && exists|i: int|
                    0 <= i < params.len() && names_ice_server(#[trigger] params[i]) {
                    Some(
                        IceServerView {
                            urls: seq![url],
                            username: lists::or_else(
                                last_value(params, "username"@),
                                Seq::empty(),
                            ),
                            password: lists::or_else(
                                last_value(params, "credential"@),
                                Seq::empty(),
                            ),
                        },
                    )
                } else {
                    None
                }
            },
        },
    }
}

/// The ICE servers among entries of a Link header, in order.
pub open spec fn entry_servers(entries: Seq<Seq<char>>) -> Seq<IceServerView>
    decreases entries.len(),
{
    if entries.len() == 0 {
        Seq::empty()
    } else {
        let before = entry_servers(entries.drop_last());
        match entry_server(entries.last()) {
            Some(server) => before.push(server),
            None => before,
        }
    }
}

/// The ICE servers in the values of Link headers, in order. A value that is
/// no text is passed over.
pub open spec fn value_servers(values: Seq<Option<Seq<char>>>) -> Seq<IceServerView>
    decreases values.len(),
{
    if values.len() == 0 {
        Seq::empty()
    } else {
        value_servers(values.drop_last()) + match values.last() {
            Some(value) => entry_servers(link_entries(value)),
            None => Seq::empty(),
        }
    }
}

/// ICE servers with text as characters.
pub open spec fn server_views(servers: Seq<IceServer>) -> Seq<IceServerView> {
    servers.map_values(|s: IceServer| s@)
}

/// Split a Link header value into its entries, at the commas outside quotes.
pub fn split_link_header_value(value: &str) -> (r: Vec<String>)
    ensures
        text::texts(r@) == link_entries(value@),
{
    let chars = chars_of(value);
    let mut marks: Vec<bool> = Vec::new();
    let mut in_quotes = false;
    let mut i: usize = 0;
    assert(value@.take(0) =~= Seq::empty());
    while i < chars.len()
        invariant
            i <= chars@.len(),
            chars@ == value@,
            in_quotes == ends_in_quotes(value@.take(i as int)),
            marks@ == separators(value@).take(i as int),
        decreases chars@.len() - i,
    {
        assert(value@.take(i + 1).drop_last() =~= value@.take(i as int));
        let ch = chars[i];
        marks.push(ch == ',' && !in_quotes);
        if ch == '"' {
            in_quotes = !in_quotes;
        }
        i += 1;
        assert(marks@ =~= separators(value@).take(i as int));
    }
    assert(marks@ =~= separators(value@));
    let parts = split_at_marks(value, marks.as_slice());
    let mut entries: Vec<String> = Vec::new();
    let mut k: usize = 0;
    assert(text::texts(entries@) =~= Seq::empty());
    assert(text::texts(parts@).take(0) =~= Seq::empty());
    while k < parts.len()
        invariant
            k <= parts@.len(),
            text::texts(entries@) == trimmed_parts(text::texts(parts@).take(k as int)),
        decreases parts@.len() - k,
    {
        assert(text::texts(parts@).take(k + 1).drop_last() =~= text::texts(parts@).take(k as int));
        let entry = trimmed(parts[k].as_str());
        let ghost before = entries@;
        if entry.as_str().unicode_len() > 0 {
            entries.push(entry);
            assert(text::texts(entries@) =~= text::texts(before).push(entry@));
        }
        k += 1;
    }
    assert(text::texts(parts@).take(k as int) =~= text::texts(parts@));
    entries
}

/// The value of a parameter, without quotes around it.
pub fn parse_param_value(value: &str) -> (r: Option<String>)
    ensures
        match r {
            Some(v) => param_value(value@) == Some(v@),
            None => param_value(value@) is None,
        },
{
    let t = trimmed(value);
    let n = t.as_str().unicode_len();
    if n == 0 {
        return None;
    }
    if n >= 2 && t.as_str().get_char(0) == '"' && t.as_str().get_char(n - 1) == '"' {
        if n == 2 {
            return None;
        }
        return Some(piece(t.as_str(), 1, n - 1));
    }
    Some(t)
}

/// A parameter as its key and its value.
fn parse_param(param: &str) -> (r: (String, Option<String>))
    ensures
        r.0@ == key_of(text::trim(param@)),
        match r.1 {
            Some(v) => value_of(text::trim(param@)) == Some(v@),
            None => value_of(text::trim(param@)) is None,
        },
{
    let t = trimmed(param);
    let chars = chars_of(t.as_str());
    let n: usize = chars.len();
    match find_char(chars.as_slice(), '=', 0) {
        Some(i) => {
            let key = piece(t.as_str(), 0, i);
            let value = piece(t.as_str(), i + 1, n);
            assert(key@ =~= t@.take(i as int));
            assert(value@ =~= t@.skip(i + 1));
            (trimmed(key.as_str()), parse_param_value(value.as_str()))
        },
        None => (trimmed(t.as_str()), None),
    }
}

/// Whether `word` is among the words of `text`.
fn has_word(words: &str, word: &str) -> (r: bool)
    ensures
        r == text::pieces(words@, text::space_marks(words@)).contains(word@),
{
    let parts = split_on_space(words);
    let ghost all = text::pieces(words@, text::space_marks(words@));
    let mut i: usize = 0;
    while i < parts.len()
        invariant
            i <= parts@.len(),
            text::texts(parts@) == all,
            all == text::pieces(words@, text::space_marks(words@)),
            forall|j: int| 0 <= j < i ==> all[j] != word@,
        decreases parts@.len() - i,
    {
        assert(all[i as int] == parts@[i as int]@);
        if same_text(parts[i].as_str(), word) {
            assert(all.contains(word@));
            return true;
        }
        i += 1;
    }
    assert(all.len() == parts@.len());
    false
}

/// The ICE server that an entry of a Link header names, if it names one.
pub fn parse_ice_server_entry(entry: &str) -> (r: Option<IceServer>)
    ensures
        match r {
            Some(server) => entry_server(entry@) == Some(server@),
            None => entry_server(entry@) is None,
        },
{
    let e = trimmed(entry);
    let chars = chars_of(e.as_str());
    let start = match find_char(chars.as_slice(), '<', 0) {
        Some(i) => i,
        None => return None,
    };
    let end = match find_char(chars.as_slice(), '>', start + 1) {
        Some(i) => i,
        None => return None,
    };
    let target = piece(e.as_str(), start + 1, end);
    let url = trimmed(target.as_str());
    if url.as_str().unicode_len() == 0 {
        return None;
    }
    let rest = piece(e.as_str(), end + 1, chars.len());
    assert(rest@ =~= e@.skip(end + 1));
    let parts = split_on(rest.as_str(), ';');
    let ghost params = text::pieces(rest@, text::marks_of(rest@, ';'));

    let mut rel_is_ice = false;
    let mut username = String::new();
    let mut password = String::new();
    let mut i: usize = 0;
    assert(username@ =~= Seq::empty());
    assert(password@ =~= Seq::empty());
    proof {
        reveal_strlit("rel");
        reveal_strlit("username");
        reveal_strlit("credential");
        assert("rel"@.len() != "username"@.len());
        assert("rel"@.len() != "credential"@.len());
        assert("username"@.len() != "credential"@.len());
    }
    while i < parts.len()
        invariant
            i <= parts@.len(),
            text::texts(parts@) == params,
            "rel"@.len() != "username"@.len(),
            "rel"@.len() != "credential"@.len(),
            "username"@.len() != "credential"@.len(),
            rel_is_ice == exists|j: int| 0 <= j < i && names_ice_server(#[trigger] params[j]),
            username@ == lists::or_else(
                last_value(params.take(i as int), "username"@),
                Seq::empty(),
            ),
            password@ == lists::or_else(
                last_value(params.take(i as int), "credential"@),
                Seq::empty(),
            ),
        decreases parts@.len() - i,
    {
        proof {
            assert(params.take(i + 1).drop_last() =~= params.take(i as int));
            assert(params[i as int] == parts@[i as int]@);
            assert(params.take(i + 1).last() == params[i as int]);
        }
        let (key, value) = parse_param(parts[i].as_str());
        if same_text(key.as_str(), "rel") {
            if let Some(rel) = value {
                if has_word(rel.as_str(), "ice-server") {
                    rel_is_ice = true;
                    assert(names_ice_server(params[i as int]));
                }
            }
        } else if same_text(key.as_str(), "username") {
            if let Some(v) = value {
                username = v;
            }
        } else if same_text(key.as_str(), "credential") {
            if let Some(v) = value {
                password = v;
            }
        }
        i += 1;
    }
    assert(params.take(i as int) =~= params);
    assert(params.len() == parts@.len());
    if !rel_is_ice {
        return None;
    }
    let mut urls: Vec<String> = Vec::new();
    urls.push(url);
    assert(text::texts(urls@) =~= seq![url@]);
    Some(IceServer { urls, username, password })
}

/// The ICE servers in the values of Link headers.
pub fn ice_servers_from_values(values: &[Option<String>]) -> (r: Vec<IceServer>)
    ensures
        server_views(r@) == value_servers(headers::texts_of(values@)),
{
    let mut servers: Vec<IceServer> = Vec::new();
    let ghost all = headers::texts_of(values@);
    let mut i: usize = 0;
    assert(server_views(servers@) =~= Seq::empty());
    while i < values.len()
        invariant
            i <= values@.len(),
            all == headers::texts_of(values@),
            server_views(servers@) == value_servers(all.take(i as int)),
        decreases values@.len() - i,
    {
        assert(all.take(i + 1).drop_last() =~= all.take(i as int));
        let ghost before = server_views(servers@);
        match &values[i] {
            None => {
                assert(before + Seq::<IceServerView>::empty() =~= before);
            },
            Some(value) => {
                let entries = split_link_header_value(value.as_str());
                let ghost texts = text::texts(entries@);
                let mut k: usize = 0;
                assert(texts.take(0) =~= Seq::empty());
                assert(server_views(servers@) =~= before + entry_servers(texts.take(0)));
                while k < entries.len()
                    invariant
                        k <= entries@.len(),
                        texts == text::texts(entries@),
                        server_views(servers@) == before + entry_servers(texts.take(k as int)),
                    decreases entries@.len() - k,
                {
                    assert(texts.take(k + 1).drop_last() =~= texts.take(k as int));
                    assert(texts.take(k + 1).last() == entries@[k as int]@);
                    let ghost so_far = servers@;
                    if let Some(server) = parse_ice_server_entry(entries[k].as_str()) {
                        servers.push(server);
                        assert(server_views(servers@) =~= server_views(so_far).push(server@));
                    }
                    k += 1;
                    assert(server_views(servers@) =~= before + entry_servers(
                        texts.take(k as int),
                    ));
                }
                assert(texts.take(k as int) =~= texts);
            },
        }
        i += 1;
    }
    assert(all.take(i as int) =~= all);
    servers
}

/// The ICE servers that the Link headers of a response name.
pub fn parse_ice_servers_from_headers(headers: &HeaderMap<HeaderValue>) -> (r: Vec<IceServer>)
    ensures
        server_views(r@) == value_servers(
            headers::texts_for(headers::header_values(*headers), "link"@),
        ),
{
    proof {
        reveal_strlit("link");
    }
    let values = all_texts(headers, "link");
    ice_servers_from_values(values.as_slice())
}

/// Every entry of a Link header value has text, and no white space around it.
pub proof fn entries_are_trimmed(value: Seq<char>)
    ensures
        forall|i: int|
            0 <= i < link_entries(value).len() ==> (#[trigger] link_entries(value)[i]).len() > 0
                && text::trim(link_entries(value)[i]) == link_entries(value)[i],
{
    lemma_parts_are_trimmed(text::pieces(value, separators(value)));
}

proof fn lemma_parts_are_trimmed(parts: Seq<Seq<char>>)
    ensures
        forall|i: int|
            0 <= i < trimmed_parts(parts).len() ==> (#[trigger] trimmed_parts(parts)[i]).len() > 0
                && text::trim(trimmed_parts(parts)[i]) == trimmed_parts(parts)[i],
    decreases parts.len(),
{
    if parts.len() > 0 {
        lemma_parts_are_trimmed(parts.drop_last());
        text::trim_is_final(parts.last());
        let before = trimmed_parts(parts.drop_last());
        assert forall|i: int| 0 <= i < trimmed_parts(parts).len() implies (
        #[trigger] trimmed_parts(parts)[i]).len() > 0 && text::trim(trimmed_parts(parts)[i])
            == trimmed_parts(parts)[i] by {
            if i < before.len() {
                assert(trimmed_parts(parts)[i] == before[i]);
            }
        }
    }
}

/// A server comes with one URL, which has text.
pub proof fn server_has_one_url(entry: Seq<char>)
    ensures
        entry_server(entry) matches Some(server) ==> server.urls.len() == 1
            && server.urls[0].len() > 0,
{
}

/// White space around an entry makes no difference.
pub proof fn space_around_entry_is_ignored(entry: Seq<char>)
    ensures
        entry_server(text::trim(entry)) == entry_server(entry),
{
    text::trim_is_final(entry);
}

/// Whether text ends inside quotes goes by the number of quotes in it: each one
/// opens or closes, and no other character does.
pub proof fn quotes_add_up(s: Seq<char>, t: Seq<char>, c: char)
    ensures
        ends_in_quotes(s + t) == (ends_in_quotes(s) != ends_in_quotes(t)),
        ends_in_quotes(seq![c]) == (c == '"'),
        !ends_in_quotes(Seq::empty()),
    decreases t.len(),
{
    assert(seq![c].drop_last() =~= Seq::empty());
    reveal_with_fuel(ends_in_quotes, 2);
    if t.len() == 0 {
        assert(s + t =~= s);
    } else {
        quotes_add_up(s, t.drop_last(), c);
        assert((s + t).drop_last() =~= s + t.drop_last());
        assert((s + t).last() == t.last());
    }
}

proof fn lemma_trimmed_parts_concat(a: Seq<Seq<char>>, b: Seq<Seq<char>>)
    ensures
        trimmed_parts(a + b) == trimmed_parts(a) + trimmed_parts(b),
    decreases b.len(),
{
    if b.len() == 0 {
        assert(a + b =~= a);
        assert(trimmed_parts(a) + trimmed_parts(b) =~= trimmed_parts(a));
    } else {
        lemma_trimmed_parts_concat(a, b.drop_last());
        assert((a + b).drop_last() =~= a + b.drop_last());
        assert((a + b).last() == b.last());
        assert(trimmed_parts(a + b) =~= trimmed_parts(a) + trimmed_parts(b));
    }
}

/// A comma that is not inside quotes parts the entries before it from those
/// behind it.
pub proof fn commas_part_entries(a: Seq<char>, b: Seq<char>)
    requires
        !ends_in_quotes(a),
    ensures
        link_entries(a + seq![','] + b) == link_entries(a) + link_entries(b),
{
    let whole = a + seq![','] + b;
    let marks = separators(whole);
    let n = a.len() as int;
    assert(marks.take(n) =~= separators(a)) by {
        assert forall|i: int| 0 <= i < n implies marks[i] == separators(a)[i] by {
            assert(whole.take(i) =~= a.take(i));
        }
    }
    assert(whole.take(n) =~= a);
    assert(marks[n]);
    assert(marks.skip(n + 1) =~= separators(b)) by {
        assert forall|i: int| 0 <= i < b.len() implies marks[n + 1 + i] == separators(b)[i] by {
            assert(whole.take(n + 1 + i) =~= a + (seq![','] + b.take(i)));
            quotes_add_up(a, seq![','] + b.take(i), ',');
            quotes_add_up(seq![','], b.take(i), ',');
        }
    }
    text::pieces_part_at_a_mark(a, ',', b, marks);
    lemma_trimmed_parts_concat(
        text::pieces(a, separators(a)),
        text::pieces(b, separators(b)),
    );
}

/// A value whose commas are all inside quotes is one entry, or none where it is
/// white space.
pub proof fn commas_in_quotes_part_nothing(value: Seq<char>)
    requires
        forall|i: int|
            0 <= i < value.len() && #[trigger] value[i] == ',' ==> ends_in_quotes(value.take(i)),
    ensures
        link_entries(value) == (if text::trim(value).len() == 0 {
            Seq::empty()
        } else {
            seq![text::trim(value)]
        }),
{
    let marks = separators(value);
    assert forall|i: int| 0 <= i < marks.len() implies !#[trigger] marks[i] by {
        if value[i] == ',' {
            assert(ends_in_quotes(value.take(i)));
        }
    }
    text::text_without_marks_is_one_piece(value, marks);
    reveal_with_fuel(trimmed_parts, 2);
    assert(seq![value].drop_last() =~= Seq::empty());
    assert(link_entries(value) =~= if text::trim(value).len() == 0 {
        Seq::empty()
    } else {
        seq![text::trim(value)]
    });
}

/// The servers of entries, or of values, are those of the first ones and then
/// those of the others. An entry gives at most its own server, and a value that
/// is no text gives none.
pub proof fn servers_come_in_order(
    a: Seq<Seq<char>>,
    b: Seq<Seq<char>>,
    v: Seq<Option<Seq<char>>>,
    w: Seq<Option<Seq<char>>>,
)
    ensures
        entry_servers(a + b) == entry_servers(a) + entry_servers(b),
        value_servers(v + w) == value_servers(v) + value_servers(w),
    decreases b.len() + w.len(),
{
    if b.len() > 0 {
        servers_come_in_order(a, b.drop_last(), v, w);
        assert((a + b).drop_last() =~= a + b.drop_last());
        assert((a + b).last() == b.last());
        assert(entry_servers(a + b) =~= entry_servers(a) + entry_servers(b));
    } else if w.len() > 0 {
        servers_come_in_order(a, b, v, w.drop_last());
        assert((v + w).drop_last() =~= v + w.drop_last());
        assert((v + w).last() == w.last());
        assert(value_servers(v + w) =~= value_servers(v) + value_servers(w));
    }
    if b.len() == 0 {
        assert(a + b =~= a);
        assert(entry_servers(a) + entry_servers(b) =~= entry_servers(a));
    }
    if w.len() == 0 {
        assert(v + w =~= v);
        assert(value_servers(v) + value_servers(w) =~= value_servers(v));
    }
}

/// A single entry, or the entries of a single value, give their servers.
pub proof fn one_entry_gives_its_server(entry: Seq<char>, value: Seq<char>)
    ensures
        entry_servers(seq![entry]) == (match entry_server(entry) {
            Some(server) => seq![server],
            None => Seq::empty(),
        }),
        value_servers(seq![Some(value)]) == entry_servers(link_entries(value)),
        value_servers(seq![None::<Seq<char>>]) == Seq::<IceServerView>::empty(),
{
    reveal_with_fuel(entry_servers, 2);
    reveal_with_fuel(value_servers, 2);
    assert(seq![entry].drop_last() =~= Seq::empty());
    assert(seq![Some(value)].drop_last() =~= Seq::empty());
    assert(seq![None::<Seq<char>>].drop_last() =~= Seq::empty());
    assert(entry_servers(seq![entry]) =~= match entry_server(entry) {
        Some(server) => seq![server],
        None => Seq::empty(),
    });
    assert(value_servers(seq![Some(value)]) =~= entry_servers(link_entries(value)));
    assert(value_servers(seq![None::<Seq<char>>]) =~= Seq::empty());
}

/// Whether `s` is text with no white space at its ends.
pub open spec fn is_trimmed(s: Seq<char>) -> bool {
    s.len() > 0 ==> !text::is_space(s[0]) && !text::is_space(s.last())
}

/// A value in quotes stands for what is between them, character for character,
/// whatever white space is around the quotes. Empty quotes stand for nothing.
pub proof fn quoted_value_is_read(before: Seq<char>, v: Seq<char>, after: Seq<char>)
    requires
        text::all_space(before),
        text::all_space(after),
    ensures
        param_value(before + (seq!['"'] + v + seq!['"']) + after) == (if v.len() == 0 {
            None
        } else {
            Some(v)
        }),
{
    let quoted = seq!['"'] + v + seq!['"'];
    text::ascii_space('"');
    text::trim_keeps_the_text(before, quoted, after);
    assert(quoted.subrange(1, quoted.len() - 1) =~= v);
}

/// A value without quotes around it stands for itself, without the white space
/// around it.
pub proof fn bare_value_is_read(before: Seq<char>, v: Seq<char>, after: Seq<char>)
    requires
        text::all_space(before),
        text::all_space(after),
        is_trimmed(v),
        v.len() < 2 || v[0] != '"' || v.last() != '"',
    ensures
        param_value(before + v + after) == (if v.len() == 0 {
            None
        } else {
            Some(v)
        }),
{
    text::trim_keeps_the_text(before, v, after);
}

/// A parameter is a key and, behind the first `=`, a value. White space around
/// the key does not belong to it.
pub proof fn parameter_is_parted(
    before: Seq<char>,
    key: Seq<char>,
    after: Seq<char>,
    value: Seq<char>,
)
    requires
        text::all_space(before),
        text::all_space(after),
        is_trimmed(key),
        !text::holds_char(key, '='),
    ensures
        key_of(before + key + after + seq!['='] + value) == key,
        value_of(before + key + after + seq!['='] + value) == param_value(value),
        key_of(before + key + after) == key,
        value_of(before + key + after) is None,
{
    let front = before + key + after;
    let whole = front + seq!['='] + value;
    text::ascii_space('=');
    assert forall|j: int| 0 <= j < front.len() implies #[trigger] front[j] != '=' by {
        if before.len() <= j < before.len() + key.len() {
            assert(key[j - before.len()] != '=');
        } else if j < before.len() {
            assert(text::is_space(before[j]));
        } else {
            assert(text::is_space(after[j - before.len() - key.len()]));
        }
    }
    let n = front.len() as int;
    assert forall|j: int| 0 <= j < n implies #[trigger] whole[j] != '=' by {
        assert(whole[j] == front[j]);
    }
    text::first_is_found_at(whole, '=', 0, n);
    text::first_is_found(front, '=', 0);
    assert(whole.take(n) =~= front);
    assert(whole.skip(n + 1) =~= value);
    text::trim_keeps_the_text(before, key, after);
}

/// A parameter with a quoted value, such as `username="u"`.
pub open spec fn quoted_param(key: Seq<char>, v: Seq<char>) -> Seq<char> {
    key + seq!['=', '"'] + v + seq!['"']
}

/// A parameter with a quoted value gives its key and that value, whatever white
/// space is around it.
pub proof fn quoted_parameter_is_read(
    before: Seq<char>,
    key: Seq<char>,
    v: Seq<char>,
    after: Seq<char>,
)
    requires
        text::all_space(before),
        text::all_space(after),
        key.len() > 0,
        is_trimmed(key),
        !text::holds_char(key, '='),
        v.len() > 0,
    ensures
        key_of(text::trim(before + quoted_param(key, v) + after)) == key,
        value_of(text::trim(before + quoted_param(key, v) + after)) == Some(v),
{
    let none = Seq::<char>::empty();
    let param = quoted_param(key, v);
    let quoted = seq!['"'] + v + seq!['"'];
    text::ascii_space('"');
    text::trim_keeps_the_text(before, param, after);
    assert(param =~= none + key + none + seq!['='] + quoted);
    assert(quoted =~= none + quoted + none);
    parameter_is_parted(none, key, none, quoted);
    quoted_value_is_read(none, v, none);
}

/// A `rel` parameter names an ICE server exactly where `ice-server` is among its
/// words.
pub proof fn rel_words_are_read(before: Seq<char>, words: Seq<Seq<char>>, after: Seq<char>)
    requires
        text::all_space(before),
        text::all_space(after),
        words.len() > 0,
        forall|k: int, i: int|
            0 <= k < words.len() && 0 <= i < words[k].len() ==> !text::is_space(
                #[trigger] words[k][i],
            ),
        text::joined(words, ' ').len() > 0,
    ensures
        names_ice_server(before + quoted_param("rel"@, text::joined(words, ' ')) + after)
            == words.contains("ice-server"@),
{
    reveal_strlit("rel");
    text::ascii_space('r');
    text::ascii_space('l');
    quoted_parameter_is_read(before, "rel"@, text::joined(words, ' '), after);
    text::joined_words_are_split_again(words);
}

/// A parameter of another name does not name an ICE server.
pub proof fn other_parameters_name_no_server(param: Seq<char>)
    requires
        key_of(text::trim(param)) != "rel"@,
    ensures
        !names_ice_server(param),
{
}

/// An entry of a Link header: text before its target, the target in angle
/// brackets, and parameters, each behind a semicolon.
pub open spec fn entry_text(
    lead: Seq<char>,
    target: Seq<char>,
    params: Seq<Seq<char>>,
) -> Seq<char> {
    lead + seq!['<'] + target + seq!['>'] + text::joined(params, ';')
}

/// An entry gives a server exactly where its target has text and one of its
/// parameters names an ICE server. The only URL of the server is the target,
/// character for character, without the white space around it.
pub proof fn entry_gives_its_target(
    before: Seq<char>,
    lead: Seq<char>,
    left: Seq<char>,
    url: Seq<char>,
    right: Seq<char>,
    params: Seq<Seq<char>>,
    after: Seq<char>,
)
    requires
        text::all_space(before),
        text::all_space(left),
        text::all_space(right),
        text::all_space(after),
        lead.len() > 0 ==> !text::is_space(lead[0]),
        !text::holds_char(lead, '<'),
        is_trimmed(url),
        !text::holds_char(url, '>'),
        params.len() > 0,
        forall|k: int| 0 <= k < params.len() ==> !text::holds_char(#[trigger] params[k], ';'),
        text::joined(params, ';').len() > 0 ==> !text::is_space(text::joined(params, ';').last()),
    ensures
        ({
            let entry = before + entry_text(lead, left + url + right, params) + after;
            let named = exists|i: int|
                0 <= i < params.len() && names_ice_server(#[trigger] params[i]);
            &&& entry_server(entry) is Some <==> url.len() > 0 && named
            &&& entry_server(entry) matches Some(server) ==> {
                &&& server.urls == seq![url]
                &&& server.username == lists::or_else(
                    last_value(params, "username"@),
                    Seq::empty(),
                )
                &&& server.password == lists::or_else(
                    last_value(params, "credential"@),
                    Seq::empty(),
                )
            }
        }),
{
    let target = left + url + right;
    let rest = text::joined(params, ';');
    let core = entry_text(lead, target, params);
    let entry = before + core + after;
    text::ascii_space('<');
    text::ascii_space('>');
    if lead.len() > 0 {
        assert(core[0] == lead[0]);
    } else {
        assert(core[0] == '<');
    }
    if rest.len() > 0 {
        assert(core.last() == rest.last());
    } else {
        assert(core.last() == '>');
    }
    text::trim_keeps_the_text(before, core, after);
    let start = lead.len() as int;
    let end = start + 1 + target.len();
    assert forall|j: int| 0 <= j < start implies #[trigger] core[j] != '<' by {
        assert(core[j] == lead[j]);
    }
    text::first_is_found_at(core, '<', 0, start);
    assert forall|j: int| start + 1 <= j < end implies #[trigger] core[j] != '>' by {
        let k = j - start - 1;
        assert(core[j] == target[k]);
        if k < left.len() {
            assert(text::is_space(left[k]));
        } else if k < left.len() + url.len() {
            assert(target[k] == url[k - left.len()]);
        } else {
            assert(text::is_space(right[k - left.len() - url.len()]));
        }
    }
    assert(core[end] == '>');
    text::first_is_found_at(core, '>', start + 1, end);
    assert(core.subrange(start + 1, end) =~= target);
    text::trim_keeps_the_text(left, url, right);
    assert(core.skip(end + 1) =~= rest);
    text::joined_parts_are_split_again(params, ';');
}

/// The value of the last parameter with a key counts, whatever other parameters
/// stand before or behind it; a key that no parameter gives a value has none.
pub proof fn last_parameter_counts(params: Seq<Seq<char>>, key: Seq<char>, i: int)
    ensures
        0 <= i < params.len() && key_of(text::trim(params[i])) == key && value_of(
            text::trim(params[i]),
        ) is Some && (forall|j: int|
            i < j < params.len() ==> key_of(text::trim(#[trigger] params[j])) != key || value_of(
                text::trim(params[j]),
            ) is None) ==> last_value(
            params,
            key,
        ) == value_of(text::trim(params[i])),
        (forall|j: int|
            0 <= j < params.len() ==> key_of(text::trim(#[trigger] params[j])) != key || value_of(
                text::trim(params[j]),
            ) is None) ==> last_value(params, key) is None,
{
    let value = |p: Seq<char>|
        if key_of(text::trim(p)) == key {
            value_of(text::trim(p))
        } else {
            None
        };
    if 0 <= i < params.len() && key_of(text::trim(params[i])) == key && value_of(
        text::trim(params[i]),
    ) is Some && (forall|j: int|
        i < j < params.len() ==> key_of(text::trim(#[trigger] params[j])) != key || value_of(
            text::trim(params[j]),
        ) is None) {
        lists::last_value_counts(params, value, i);
    }
    if forall|j: int|
        0 <= j < params.len() ==> key_of(text::trim(#[trigger] params[j])) != key || value_of(
            text::trim(params[j]),
        ) is None {
        lists::no_value_gives_none(params, value);
    }
}

proof fn lemma_server_entry_text(url: Seq<char>, username: Seq<char>, credential: Seq<char>)
    ensures
        ({
            let none = Seq::<char>::empty();
            let p1 = seq![' '] + quoted_param("rel"@, "ice-server"@) + none;
            let p2 = seq![' '] + quoted_param("username"@, username) + none;
            let p3 = seq![' '] + quoted_param("credential"@, credential) + none;
            seq!['<'] + url + seq!['>'] + "; rel=\"ice-server\"; username=\""@ + username
                + "\"; credential=\""@ + credential + "\""@ == none + entry_text(
                none,
                none + url + none,
                seq![none, p1, p2, p3],
            ) + none
        }),
{
    let none = Seq::<char>::empty();
    reveal_strlit("; rel=\"ice-server\"; username=\"");
    reveal_strlit("\"; credential=\"");
    reveal_strlit("\"");
    reveal_strlit("rel");
    reveal_strlit("ice-server");
    reveal_strlit("username");
    reveal_strlit("credential");
    let p1 = seq![' '] + quoted_param("rel"@, "ice-server"@) + none;
    let p2 = seq![' '] + quoted_param("username"@, username) + none;
    let p3 = seq![' '] + quoted_param("credential"@, credential) + none;
    let params = seq![none, p1, p2, p3];
    let entry = seq!['<'] + url + seq!['>'] + "; rel=\"ice-server\"; username=\""@ + username
        + "\"; credential=\""@ + credential + "\""@;
    reveal_with_fuel(text::joined, 5);
    let j2 = params.drop_last();
    let j1 = j2.drop_last();
    assert(j1.drop_last() =~= seq![none]);
    assert(text::joined(params, ';') =~= "; rel=\"ice-server\"; username=\""@ + username
        + "\"; credential=\""@ + credential + "\""@);
    assert(entry =~= none + entry_text(none, none + url + none, params) + none);
}

/// The entry that an endpoint writes for a server with a user gives that server:
/// its URL, user name and credential, character for character.
pub proof fn server_entry_is_read(url: Seq<char>, username: Seq<char>, credential: Seq<char>)
    requires
        url.len() > 0,
        is_trimmed(url),
        !text::holds_char(url, '>'),
        username.len() > 0,
        !text::holds_char(username, ';'),
        credential.len() > 0,
        !text::holds_char(credential, ';'),
    ensures
        entry_server(
            seq!['<'] + url + seq!['>'] + "; rel=\"ice-server\"; username=\""@ + username
                + "\"; credential=\""@ + credential + "\""@,
        ) == Some(IceServerView { urls: seq![url], username, password: credential }),
{
    let none = Seq::<char>::empty();
    let space = seq![' '];
    reveal_strlit("rel");
    reveal_strlit("ice-server");
    reveal_strlit("username");
    reveal_strlit("credential");
    let words = seq!["ice-server"@];
    let p1 = space + quoted_param("rel"@, "ice-server"@) + none;
    let p2 = space + quoted_param("username"@, username) + none;
    let p3 = space + quoted_param("credential"@, credential) + none;
    let params = seq![none, p1, p2, p3];
    let entry = seq!['<'] + url + seq!['>'] + "; rel=\"ice-server\"; username=\""@ + username
        + "\"; credential=\""@ + credential + "\""@;
    assert(text::all_space(space)) by {
        text::ascii_space(' ');
    }
    assert forall|k: int, i: int| 0 <= k < words.len() && 0 <= i < words[k].len() implies
        !text::is_space(#[trigger] words[k][i]) by {
        text::ascii_space(words[k][i]);
    }
    assert(words[0] == "ice-server"@);
    rel_words_are_read(space, words, none);
    text::ascii_space('u');
    text::ascii_space('e');
    text::ascii_space('c');
    text::ascii_space('l');
    text::ascii_space('"');
    quoted_parameter_is_read(space, "username"@, username, none);
    quoted_parameter_is_read(space, "credential"@, credential, none);
    quoted_parameter_is_read(space, "rel"@, "ice-server"@, none);
    assert(text::trim(none) =~= none);
    text::first_is_found(none, '=', 0);
    assert(key_of(text::trim(none)) =~= none);
    lemma_server_entry_text(url, username, credential);
    assert forall|k: int| 0 <= k < params.len() implies !text::holds_char(
        #[trigger] params[k],
        ';',
    ) by {
        if k == 2 {
            lemma_no_semicolon("username"@, username);
        } else if k == 3 {
            lemma_no_semicolon("credential"@, credential);
        } else if k == 1 {
            lemma_no_semicolon("rel"@, "ice-server"@);
        }
    }
    entry_gives_its_target(none, none, none, url, none, params, none);
    assert(names_ice_server(params[1]));
    assert("rel"@.len() == 3 && "username"@.len() == 8 && "credential"@.len() == 10);
    last_parameter_counts(params, "username"@, 2);
    last_parameter_counts(params, "credential"@, 3);
    assert(params[3] == p3 && params[2] == p2);
}

proof fn lemma_no_semicolon(key: Seq<char>, v: Seq<char>)
    requires
        !text::holds_char(key, ';'),
        !text::holds_char(v, ';'),
    ensures
        !text::holds_char(seq![' '] + quoted_param(key, v) + Seq::<char>::empty(), ';'),
{
    let whole = seq![' '] + quoted_param(key, v) + Seq::<char>::empty();
    assert forall|i: int| 0 <= i < whole.len() implies #[trigger] whole[i] != ';' by {
        if 1 <= i < 1 + key.len() {
            assert(whole[i] == key[i - 1]);
        } else if 3 + key.len() <= i < 3 + key.len() + v.len() {
            assert(whole[i] == v[i - 3 - key.len()]);
        }
    }
}

/// An entry without a target in angle brackets gives no server: none that has no
/// opening bracket, and none that has no closing one behind the first opening
/// one.
pub proof fn entry_needs_a_target(
    before: Seq<char>,
    lead: Seq<char>,
    rest: Seq<char>,
    after: Seq<char>,
)
    requires
        text::all_space(before),
        text::all_space(after),
        is_trimmed(lead),
        is_trimmed(rest),
        !text::holds_char(lead, '<'),
        !text::holds_char(rest, '>'),
    ensures
        entry_server(before + lead + after) is None,
        entry_server(before + (lead + seq!['<'] + rest) + after) is None,
{
    text::trim_keeps_the_text(before, lead, after);
    text::first_is_found(lead, '<', 0);
    let core = lead + seq!['<'] + rest;
    let n = lead.len() as int;
    text::ascii_space('<');
    if lead.len() > 0 {
        assert(core[0] == lead[0]);
    }
    if rest.len() > 0 {
        assert(core.last() == rest.last());
    }
    text::trim_keeps_the_text(before, core, after);
    assert forall|j: int| 0 <= j < n implies #[trigger] core[j] != '<' by {
        assert(core[j] == lead[j]);
    }
    text::first_is_found_at(core, '<', 0, n);
    text::first_is_found(core, '>', n + 1);
    if let Some(i) = text::find_from(core, '>', n + 1) {
        assert(core[i] == rest[i - n - 1]);
    }
}

} // verus!
