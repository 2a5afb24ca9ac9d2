//! The interaction flow: callback-token parsing, the add/delete/reset
//! transitions against the store and the search cache, vote
//! composition, and the view models (list text, button rows, album
//! plan) that the transport layer renders.

use vstd::prelude::*;
use vstd::string::StrSliceExecFns;
use vstd::string::StringExecFns;
use crate::model::{MultiNorm, StoredMovie, MovieView, opt_view};
use crate::store::{Document, InsertOutcome, spec_get, has_id, spec_find};
use crate::coord::{SearchCache, spec_resolve};
use crate::numfmt::{spec_u64_chars, is_digit_char, spec_digits_val, spec_digit_val, all_digits};
use crate::text::{push_char, spec_html_escape, spec_clip, html_escape, clip};
use crate::client::spec_image_url;

verus! {

/// A parsed callback token: an action tag and a numeric id, or the
/// defined unknown outcome for anything unparsable.
#[derive(Clone, Copy, Debug, PartialEq, Eq, Structural)]
pub enum ParsedToken {
    AddId(u64),
    DelId(u64),
    ShowId(u64),
    Unknown,
}

/// The character sequence of a token carrying this action tag and id.
pub open spec fn spec_token(tag: Seq<char>, id: int) -> Seq<char> {
    tag + seq![':'] + spec_u64_chars(id)
}

/// Reads the digits after the separator as an id, if they are exactly
/// a decimal number that fits.
fn parse_id_part(t: &Vec<char>, from: usize) -> (r: Option<u64>)
    requires
        from <= t@.len(),
    ensures
        match r {
            Option::Some(v) => from < t@.len() && all_digits(t@.skip(from as int))
                && spec_digits_val(t@.skip(from as int)) == v,
            Option::None => !(from < t@.len() && all_digits(t@.skip(from as int))
                && spec_digits_val(t@.skip(from as int)) <= u64::MAX as int),
        },
{
    if from >= t.len() {
        return Option::None;
    }
    let mut v: u64 = 0;
    let mut k: usize = from;
    proof {
        assert(t@.subrange(from as int, from as int) =~= Seq::<char>::empty());
    }
    while k < t.len()
        invariant
            from <= k <= t@.len(),
            all_digits(t@.subrange(from as int, k as int)),
            spec_digits_val(t@.subrange(from as int, k as int)) == v,
        decreases t@.len() - k as int,
    {
        let c = t[k];
        let u = c as u32;
        if u < 48 || u > 57 {
            proof {
                assert(t@.skip(from as int)[k as int - from as int] == t@[k as int]);
                assert(!is_digit_char(t@[k as int]));
            }
            return Option::None;
        }
        let d = (u - 48) as u64;
        if v > (u64::MAX - d) / 10 {
            proof {
                let whole = t@.skip(from as int);
                if all_digits(whole) {
                    let pre = t@.subrange(from as int, k as int);
                    let post = t@.subrange(from as int, k as int + 1);
                    assert(pre.push(t@[k as int]) =~= post);
                    assert(post.drop_last() =~= pre);
                    assert(is_digit_char(t@[k as int]));
                    assert(spec_digit_val(t@[k as int]) == (u - 48) as int);
                    assert(spec_digits_val(post) == v * 10 + (u - 48));
                    assert(whole.take(k as int + 1 - from as int) =~= post);
                    crate::numfmt::lemma_digits_val_prefix(whole, k as int + 1 - from as int);
                    assert(spec_digits_val(whole) >= v * 10 + (u - 48));
                    assert(v * 10 + (u - 48) > u64::MAX as int);
                }
            }
            return Option::None;
        }
        v = v * 10 + d;
        proof {
            let pre = t@.subrange(from as int, k as int);
            let post = t@.subrange(from as int, k as int + 1);
            assert(pre.push(t@[k as int]) =~= post);
            assert(post.drop_last() =~= pre);
            assert(post.last() == t@[k as int]);
            assert(is_digit_char(t@[k as int]));
            assert forall|j: int| 0 <= j < post.len() implies is_digit_char(#[trigger] post[j]) by {
                if j < pre.len() {
                    assert(post[j] == pre[j]);
                }
            }
            assert(spec_digit_val(t@[k as int]) == d as int);
            assert(spec_digits_val(post) == spec_digits_val(pre) * 10 + spec_digit_val(
                t@[k as int],
            ));
        }
        k += 1;
    }
    proof {
        assert(t@.subrange(from as int, t@.len() as int) =~= t@.skip(from as int));
    }
    Option::Some(v)
}

/// The position of the first colon, if any.
fn find_colon(t: &Vec<char>) -> (r: Option<usize>)
    ensures
        match r {
            Option::Some(i) => i < t@.len() && t@[i as int] == ':' && (forall|j: int|
                0 <= j < i as int ==> t@[j] != ':'),
            Option::None => forall|j: int| 0 <= j < t@.len() ==> t@[j] != ':',
        },
{
    let mut i: usize = 0;
    while i < t.len()
        invariant
            i <= t@.len(),
            forall|j: int| 0 <= j < i as int ==> t@[j] != ':',
        decreases t@.len() - i as int,
    {
        if t[i] == ':' {
            return Option::Some(i);
        }
        i += 1;
    }
    Option::None
}

/// Turns a string into its characters.
pub fn chars_of(s: &str) -> (r: Vec<char>)
    ensures
        r@ == s@,
{
    let n = s.unicode_len();
    let mut out: Vec<char> = Vec::new();
    let mut i: usize = 0;
    while i < n
        invariant
            n == s@.len(),
            i <= n,
            out@ == s@.take(i as int),
        decreases n - i,
    {
        out.push(s.get_char(i));
        proof {
            assert(s@.take(i as int).push(s@[i as int]) =~= s@.take(i as int + 1));
        }
        i += 1;
    }
    proof {
        assert(s@.take(n as int) =~= s@);
    }
    out
}

/// Parses a callback token of the shape `action:id`. A token without a
/// separator, with a non-numeric id, or with an unknown action tag is
/// the defined unknown outcome, which changes no state.
pub fn parse_token(data: &str) -> (r: ParsedToken)
    ensures
        forall|id: u64|
            data@ == spec_token("add"@, id as int) ==> r == ParsedToken::AddId(id),
        forall|id: u64|
            data@ == spec_token("del"@, id as int) ==> r == ParsedToken::DelId(id),
        forall|id: u64|
            data@ == spec_token("show"@, id as int) ==> r == ParsedToken::ShowId(id),
{
    let t = chars_of(data);
    let colon = find_colon(&t);
    let sep: usize;
    match colon {
        Option::None => {
            proof {
                lemma_token_has_sep(data@, t@);
            }
            return ParsedToken::Unknown;
        },
        Option::Some(p) => {
            sep = p;
        },
    }
    let tlen = t.len();
    proof {
        assert(sep < tlen);
    }
    let id = parse_id_part(&t, sep + 1);
    match id {
        Option::None => {
            proof {
                lemma_token_shape(data@, t@, sep as int);
                assert forall|idv: u64| data@ != spec_token("add"@, idv as int) by {
                    if data@ == spec_token("add"@, idv as int) {
                        crate::numfmt::lemma_u64_chars_val(idv as int);
                    }
                }
                assert forall|idv: u64| data@ != spec_token("del"@, idv as int) by {
                    if data@ == spec_token("del"@, idv as int) {
                        crate::numfmt::lemma_u64_chars_val(idv as int);
                    }
                }
                assert forall|idv: u64| data@ != spec_token("show"@, idv as int) by {
                    if data@ == spec_token("show"@, idv as int) {
                        crate::numfmt::lemma_u64_chars_val(idv as int);
                    }
                }
            }
            return ParsedToken::Unknown;
        },
        Option::Some(v) => {
            proof {
                lemma_token_shape(data@, t@, sep as int);
                lemma_tag_literals();
            }
            let tag = data.substring_char(0, sep);
            if tag.unicode_len() == 3 && tag.get_char(0) == 'a' && tag.get_char(1) == 'd'
                && tag.get_char(2) == 'd' {
                proof {
                    assert(tag@ =~= "add"@) by {
                        reveal_strlit("add");
                    }
                    assert forall|idv: u64|
                        data@ == spec_token("add"@, idv as int) implies v == idv by {
                        crate::numfmt::lemma_u64_chars_val(idv as int);
                    }
                }
                return ParsedToken::AddId(v);
            } else if tag.unicode_len() == 3 && tag.get_char(0) == 'd' && tag.get_char(1) == 'e'
                && tag.get_char(2) == 'l' {
                proof {
                    assert(tag@ =~= "del"@) by {
                        reveal_strlit("del");
                    }
                    assert forall|idv: u64|
                        data@ == spec_token("del"@, idv as int) implies v == idv by {
                        crate::numfmt::lemma_u64_chars_val(idv as int);
                    }
                }
                return ParsedToken::DelId(v);
            } else if tag.unicode_len() == 4 && tag.get_char(0) == 's' && tag.get_char(1) == 'h'
                && tag.get_char(2) == 'o' && tag.get_char(3) == 'w' {
                proof {
                    assert(tag@ =~= "show"@) by {
                        reveal_strlit("show");
                    }
                    assert forall|idv: u64|
                        data@ == spec_token("show"@, idv as int) implies v == idv by {
                        crate::numfmt::lemma_u64_chars_val(idv as int);
                    }
                }
                return ParsedToken::ShowId(v);
            } else {
                proof {
                    lemma_tag_mismatch(data@, t@, sep as int, tag@);
                }
                return ParsedToken::Unknown;
            }
        },
    }
}

/// The characters of the three action tags.
proof fn lemma_tag_literals()
    ensures
        "add"@.len() == 3,
        "add"@[0] == 'a' && "add"@[1] == 'd' && "add"@[2] == 'd',
        "del"@.len() == 3,
        "del"@[0] == 'd' && "del"@[1] == 'e' && "del"@[2] == 'l',
        "show"@.len() == 4,
        "show"@[0] == 's' && "show"@[1] == 'h' && "show"@[2] == 'o' && "show"@[3] == 'w',
        forall|j: int| 0 <= j < 3 ==> "add"@[j] != ':',
        forall|j: int| 0 <= j < 3 ==> "del"@[j] != ':',
        forall|j: int| 0 <= j < 4 ==> "show"@[j] != ':',
{
    reveal_strlit("add");
    reveal_strlit("del");
    reveal_strlit("show");
    assert forall|j: int| 0 <= j < 3 implies "add"@[j] != ':' by {
        assert(j == 0 || j == 1 || j == 2);
    }
    assert forall|j: int| 0 <= j < 3 implies "del"@[j] != ':' by {
        assert(j == 0 || j == 1 || j == 2);
    }
    assert forall|j: int| 0 <= j < 4 implies "show"@[j] != ':' by {
        assert(j == 0 || j == 1 || j == 2 || j == 3);
    }
}

/// A well-formed token holds a separator; its tag holds none.
proof fn lemma_token_has_sep(s: Seq<char>, t: Seq<char>)
    requires
        t == s,
        forall|j: int| 0 <= j < t.len() ==> t[j] != ':',
    ensures
        forall|id: u64| s != spec_token("add"@, id as int),
        forall|id: u64| s != spec_token("del"@, id as int),
        forall|id: u64| s != spec_token("show"@, id as int),
{
    lemma_tag_literals();
    assert forall|id: u64| s != spec_token("add"@, id as int) by {
        if s == spec_token("add"@, id as int) {
            assert(s[3] == ':');
        }
    }
    assert forall|id: u64| s != spec_token("del"@, id as int) by {
        if s == spec_token("del"@, id as int) {
            assert(s[3] == ':');
        }
    }
    assert forall|id: u64| s != spec_token("show"@, id as int) by {
        if s == spec_token("show"@, id as int) {
            assert(s[4] == ':');
        }
    }
}

/// What a well-formed token pins down about the separator position,
/// the tag text, and the digits after it.
proof fn lemma_token_shape(s: Seq<char>, t: Seq<char>, sep: int)
    requires
        t == s,
        0 <= sep < t.len(),
        t[sep] == ':',
        forall|j: int| 0 <= j < sep ==> t[j] != ':',
    ensures
        forall|id: u64|
            s == spec_token("add"@, id as int) ==> sep == 3 && s.subrange(0, 3) == "add"@
                && s.skip(4) == spec_u64_chars(id as int),
        forall|id: u64|
            s == spec_token("del"@, id as int) ==> sep == 3 && s.subrange(0, 3) == "del"@
                && s.skip(4) == spec_u64_chars(id as int),
        forall|id: u64|
            s == spec_token("show"@, id as int) ==> sep == 4 && s.subrange(0, 4) == "show"@
                && s.skip(5) == spec_u64_chars(id as int),
{
    lemma_tag_literals();
    assert forall|id: u64| s == spec_token("add"@, id as int) implies sep == 3 && s.subrange(0, 3)
        == "add"@ && s.skip(4) == spec_u64_chars(id as int) by {
        lemma_token_sep_at(s, "add"@, id as int, sep);
    }
    assert forall|id: u64| s == spec_token("del"@, id as int) implies sep == 3 && s.subrange(0, 3)
        == "del"@ && s.skip(4) == spec_u64_chars(id as int) by {
        lemma_token_sep_at(s, "del"@, id as int, sep);
    }
    assert forall|id: u64| s == spec_token("show"@, id as int) implies sep == 4 && s.subrange(0, 4)
        == "show"@ && s.skip(5) == spec_u64_chars(id as int) by {
        lemma_token_sep_at(s, "show"@, id as int, sep);
    }
}

/// In a token made of a colon-free tag, the separator, and digits, the
/// first colon stands exactly after the tag.
proof fn lemma_token_sep_at(s: Seq<char>, tag: Seq<char>, id: int, sep: int)
    requires
        id >= 0,
        s == spec_token(tag, id),
        (forall|j: int| 0 <= j < tag.len() ==> tag[j] != ':'),
        0 <= sep < s.len(),
        s[sep] == ':',
        forall|j: int| 0 <= j < sep ==> s[j] != ':',
    ensures
        sep == tag.len(),
        s.subrange(0, tag.len() as int) == tag,
        s.skip(tag.len() as int + 1) == spec_u64_chars(id),
{
    crate::numfmt::lemma_u64_chars_val(id);
    let digits = spec_u64_chars(id);
    assert(s.len() == tag.len() + 1 + digits.len());
    assert(s[tag.len() as int] == ':');
    if sep < tag.len() {
        assert(s[sep] == tag[sep]);
        assert(false);
    }
    if sep > tag.len() {
        assert(s[tag.len() as int] == ':');
        assert(false);
    }
    assert(s.subrange(0, tag.len() as int) =~= tag);
    assert forall|j: int| 0 <= j < digits.len() implies s.skip(tag.len() as int + 1)[j]
        == digits[j] by {
        assert(s[tag.len() + 1 + j] == digits[j]);
    }
    assert(s.skip(tag.len() as int + 1) =~= digits);
}

/// A token whose tag is none of the known tags parses to none of the
/// known outcomes.
proof fn lemma_tag_mismatch(s: Seq<char>, t: Seq<char>, sep: int, tag: Seq<char>)
    requires
        t == s,
        0 <= sep < t.len(),
        t[sep] == ':',
        forall|j: int| 0 <= j < sep ==> t[j] != ':',
        tag == s.subrange(0, sep),
        tag != "add"@,
        tag != "del"@,
        tag != "show"@,
    ensures
        forall|id: u64| s != spec_token("add"@, id as int),
        forall|id: u64| s != spec_token("del"@, id as int),
        forall|id: u64| s != spec_token("show"@, id as int),
{
    lemma_tag_literals();
    assert forall|id: u64| s != spec_token("add"@, id as int) by {
        if s == spec_token("add"@, id as int) {
            lemma_token_sep_at(s, "add"@, id as int, sep);
        }
    }
    assert forall|id: u64| s != spec_token("del"@, id as int) by {
        if s == spec_token("del"@, id as int) {
            lemma_token_sep_at(s, "del"@, id as int, sep);
        }
    }
    assert forall|id: u64| s != spec_token("show"@, id as int) by {
        if s == spec_token("show"@, id as int) {
            lemma_token_sep_at(s, "show"@, id as int, sep);
        }
    }
}

/// The durable image of a normalized item.
pub open spec fn spec_stored_of(m: MultiNorm) -> MovieView {
    MovieView {
        id: m.id,
        title: m.title@,
        original_title: m.original_title@,
        poster_path: opt_view(m.image_path),
        release_date: opt_view(m.release_date),
    }
}

/// How an add token resolves for the user.
#[derive(Clone, Copy, Debug, PartialEq, Eq, Structural)]
pub enum AddOutcome {
    /// The entry went in; the document changed and calls for a flush.
    Added,
    /// The id is already on the shortlist; nothing changed.
    AlreadyInList,
    /// The shortlist already holds ten entries; nothing changed.
    ListFull,
    /// The id is not in this conversation's last recorded search;
    /// nothing changed.
    NotInLastSearch,
}

/// Handles an add token: resolves the id against this conversation's
/// last recorded search only, and appends the resolved item's durable
/// subset to this conversation's shortlist.
pub fn handle_add(doc: &mut Document, cache: &SearchCache, chat_id: i64, id: u64) -> (r: AddOutcome)
    requires
        old(doc).wf(),
    ensures
        final(doc).wf(),
        final(doc)@.version == old(doc)@.version,
        match spec_resolve(cache.entries@, chat_id, id) {
            Option::None => r == AddOutcome::NotInLastSearch && final(doc)@ == old(doc)@,
            Option::Some(m) => match r {
                AddOutcome::Added => !has_id(spec_get(old(doc)@, chat_id), m.id) && spec_get(
                    old(doc)@,
                    chat_id,
                ).len() < 10 && spec_get(final(doc)@, chat_id) == spec_get(
                    old(doc)@,
                    chat_id,
                ).push(spec_stored_of(m)) && (forall|c: i64|
                    c != chat_id ==> #[trigger] spec_find(final(doc)@.chats, c) == spec_find(
                        old(doc)@.chats,
                        c,
                    )),
                AddOutcome::AlreadyInList => has_id(spec_get(old(doc)@, chat_id), m.id)
                    && final(doc)@ == old(doc)@,
                AddOutcome::ListFull => !has_id(spec_get(old(doc)@, chat_id), m.id) && spec_get(
                    old(doc)@,
                    chat_id,
                ).len() >= 10 && final(doc)@ == old(doc)@,
                AddOutcome::NotInLastSearch => false,
            },
        },
{
    let resolved = cache.resolve(chat_id, id);
    match resolved {
        Option::None => AddOutcome::NotInLastSearch,
        Option::Some(m) => {
            let entry = m.to_stored();
            proof {
                assert(entry@ == spec_stored_of(m));
            }
            match doc.add_movie(chat_id, entry) {
                InsertOutcome::Inserted => AddOutcome::Added,
                InsertOutcome::AlreadyPresent => AddOutcome::AlreadyInList,
                InsertOutcome::Full => AddOutcome::ListFull,
            }
        },
    }
}

/// The one-line label of a title: the title, with the release year in
/// parentheses when a release date is known.
pub open spec fn spec_title_line(title: Seq<char>, rd: Option<Seq<char>>) -> Seq<char> {
    match rd {
        Option::Some(d) => if d.len() >= 4 {
            title + " ("@ + d.take(4) + ")"@
        } else {
            title
        },
        Option::None => title,
    }
}

/// The one-line label of a durable entry.
pub fn one_line_title_stored(m: &StoredMovie) -> (r: String)
    ensures
        r@ == spec_title_line(m.title@, opt_view(m.release_date)),
{
    match &m.release_date {
        Option::Some(d) => {
            if d.as_str().unicode_len() >= 4 {
                let mut out = m.title.clone();
                out.append(" (");
                out.append(d.as_str().substring_char(0, 4));
                out.append(")");
                out
            } else {
                m.title.clone()
            }
        },
        Option::None => m.title.clone(),
    }
}

/// The one-line label of a normalized catalog item.
pub fn one_line_title(m: &MultiNorm) -> (r: String)
    ensures
        r@ == spec_title_line(m.title@, opt_view(m.release_date)),
{
    match &m.release_date {
        Option::Some(d) => {
            if d.as_str().unicode_len() >= 4 {
                let mut out = m.title.clone();
                out.append(" (");
                out.append(d.as_str().substring_char(0, 4));
                out.append(")");
                out
            } else {
                m.title.clone()
            }
        },
        Option::None => m.title.clone(),
    }
}

/// Whether every character of a string is a plain blank.
pub open spec fn spec_is_blank(s: Seq<char>) -> bool {
    forall|i: int|
        0 <= i < s.len() ==> (#[trigger] s[i] == ' ' || s[i] == '\t' || s[i] == '\n' || s[i]
            == '\r')
}

/// Decides whether a string holds nothing but blanks.
pub fn is_blank(s: &str) -> (r: bool)
    ensures
        r == spec_is_blank(s@),
{
    let n = s.unicode_len();
    let mut i: usize = 0;
    while i < n
        invariant
            n == s@.len(),
            i <= n,
            forall|j: int|
                0 <= j < i as int ==> (#[trigger] s@[j] == ' ' || s@[j] == '\t' || s@[j] == '\n'
                    || s@[j] == '\r'),
        decreases n - i,
    {
        let c = s.get_char(i);
        if !(c == ' ' || c == '\t' || c == '\n' || c == '\r') {
            return false;
        }
        i += 1;
    }
    true
}

/// The caption block for one item: its escaped title in bold, the
/// release year when known, and the synopsis — escaped and clipped to
/// the given limit, or a placeholder when it is blank.
pub open spec fn spec_make_block(
    title: Seq<char>,
    rd: Option<Seq<char>>,
    overview: Seq<char>,
    limit: int,
) -> Seq<char> {
    let year = match rd {
        Option::Some(d) => if d.len() >= 4 {
            d.take(4)
        } else {
            Seq::<char>::empty()
        },
        Option::None => Seq::<char>::empty(),
    };
    let body = if spec_is_blank(overview) {
        "<i>нет описания</i>"@
    } else {
        spec_clip(spec_html_escape(overview), limit)
    };
    if year.len() == 0 {
        "<b>"@ + spec_html_escape(title) + "</b>\n\n"@ + body
    } else {
        "<b>"@ + spec_html_escape(title) + "</b> ("@ + year + ")\n\n"@ + body
    }
}

/// Builds the caption block for one item.
pub fn make_block(m: &MultiNorm, overview_limit: usize) -> (r: String)
    ensures
        r@ == spec_make_block(m.title@, opt_view(m.release_date), m.overview@, overview_limit as int),
{
    let mut year = String::new();
    let mut has_year = false;
    match &m.release_date {
        Option::Some(d) => {
            if d.as_str().unicode_len() >= 4 {
                year = String::from_str(d.as_str().substring_char(0, 4));
                has_year = true;
            }
        },
        Option::None => {},
    }
    let body: String = if is_blank(m.overview.as_str()) {
        String::from_str("<i>нет описания</i>")
    } else {
        let esc = html_escape(m.overview.as_str());
        clip(esc.as_str(), overview_limit)
    };
    let mut out = String::from_str("<b>");
    let esc_title = html_escape(m.title.as_str());
    out.append(esc_title.as_str());
    if has_year {
        out.append("</b> (");
        out.append(year.as_str());
        out.append(")\n\n");
    } else {
        out.append("</b>\n\n");
    }
    out.append(body.as_str());
    proof {
        assert(out@ =~= spec_make_block(
            m.title@,
            opt_view(m.release_date),
            m.overview@,
            overview_limit as int,
        ));
    }
    out
}

/// What composing a vote yields: the defined refusal for a shortlist
/// of fewer than two entries, or one poll option per entry, each the
/// entry's one-line label.
pub enum VotePlan {
    NeedAtLeastTwo,
    Poll { options: Vec<String> },
}

/// Composes the poll for a conversation's shortlist: fewer than two
/// entries yield no poll, only the refusal; otherwise exactly one
/// option per entry, in shortlist order.
pub fn compose_vote(list: &Vec<StoredMovie>) -> (r: VotePlan)
    ensures
        list@.len() < 2 ==> r is NeedAtLeastTwo,
        list@.len() >= 2 ==> (r matches VotePlan::Poll { options } && options@.len()
            == list@.len() && (forall|i: int|
            0 <= i < list@.len() ==> (#[trigger] options@[i])@ == spec_title_line(
                list@[i].title@,
                opt_view(list@[i].release_date),
            ))),
{
    if list.len() < 2 {
        return VotePlan::NeedAtLeastTwo;
    }
    let mut options: Vec<String> = Vec::new();
    let mut i: usize = 0;
    while i < list.len()
        invariant
            i <= list@.len(),
            options@.len() == i,
            forall|j: int|
                0 <= j < i as int ==> (#[trigger] options@[j])@ == spec_title_line(
                    list@[j].title@,
                    opt_view(list@[j].release_date),
                ),
        decreases list@.len() - i as int,
    {
        options.push(one_line_title_stored(&list[i]));
        i += 1;
    }
    VotePlan::Poll { options }
}

/// One button of the add keyboard: its label and its callback token.
pub struct AddButton {
    pub label: String,
    pub token: String,
}

/// Builds the add keyboard: one row per search result, labelled with
/// the one-line title and carrying an add token for the result's id.
pub fn add_buttons(results: &Vec<MultiNorm>) -> (r: Vec<AddButton>)
    ensures
        r@.len() == results@.len(),
        forall|i: int|
            0 <= i < results@.len() ==> {
                &&& (#[trigger] r@[i]).label@ == "➕ "@ + spec_title_line(
                    results@[i].title@,
                    opt_view(results@[i].release_date),
                )
                &&& r@[i].token@ == spec_token("add"@, results@[i].id as int)
            },
{
    let mut out: Vec<AddButton> = Vec::new();
    let mut i: usize = 0;
    while i < results.len()
        invariant
            i <= results@.len(),
            out@.len() == i,
            forall|j: int|
                0 <= j < i as int ==> {
                    &&& (#[trigger] out@[j]).label@ == "➕ "@ + spec_title_line(
                        results@[j].title@,
                        opt_view(results@[j].release_date),
                    )
                    &&& out@[j].token@ == spec_token("add"@, results@[j].id as int)
                },
        decreases results@.len() - i as int,
    {
        let mut label = String::from_str("➕ ");
        let line = one_line_title(&results[i]);
        label.append(line.as_str());
        let mut token = String::from_str("add:");
        crate::client::append_u64(&mut token, results[i].id);
        proof {
            assert(token@ =~= spec_token("add"@, results@[i as int].id as int)) by {
                reveal_strlit("add:");
                reveal_strlit("add");
            }
        }
        out.push(AddButton { label, token });
        i += 1;
    }
    out
}

/// One row of the list keyboard: a show button and a delete button for
/// one shortlist entry.
pub struct ListRow {
    pub show_label: String,
    pub show_token: String,
    pub del_label: String,
    pub del_token: String,
}

/// Builds the list keyboard: per entry, a show button labelled with
/// the one-line title, and a delete button.
pub fn list_buttons(list: &Vec<StoredMovie>) -> (r: Vec<ListRow>)
    ensures
        r@.len() == list@.len(),
        forall|i: int|
            0 <= i < list@.len() ==> {
                &&& (#[trigger] r@[i]).show_label@ == "🎬 "@ + spec_title_line(
                    list@[i].title@,
                    opt_view(list@[i].release_date),
                )
                &&& r@[i].show_token@ == spec_token("show"@, list@[i].id as int)
                &&& r@[i].del_label@ == "🗑"@
                &&& r@[i].del_token@ == spec_token("del"@, list@[i].id as int)
            },
{
    let mut out: Vec<ListRow> = Vec::new();
    let mut i: usize = 0;
    while i < list.len()
        invariant
            i <= list@.len(),
            out@.len() == i,
            forall|j: int|
                0 <= j < i as int ==> {
                    &&& (#[trigger] out@[j]).show_label@ == "🎬 "@ + spec_title_line(
                        list@[j].title@,
                        opt_view(list@[j].release_date),
                    )
                    &&& out@[j].show_token@ == spec_token("show"@, list@[j].id as int)
                    &&& out@[j].del_label@ == "🗑"@
                    &&& out@[j].del_token@ == spec_token("del"@, list@[j].id as int)
                },
        decreases list@.len() - i as int,
    {
        let mut show_label = String::from_str("🎬 ");
        let line = one_line_title_stored(&list[i]);
        show_label.append(line.as_str());
        let mut show_token = String::from_str("show:");
        crate::client::append_u64(&mut show_token, list[i].id);
        let del_label = String::from_str("🗑");
        let mut del_token = String::from_str("del:");
        crate::client::append_u64(&mut del_token, list[i].id);
        proof {
            assert(show_token@ =~= spec_token("show"@, list@[i as int].id as int)) by {
                reveal_strlit("show:");
                reveal_strlit("show");
            }
            assert(del_token@ =~= spec_token("del"@, list@[i as int].id as int)) by {
                reveal_strlit("del:");
                reveal_strlit("del");
            }
        }
        out.push(ListRow { show_label, show_token, del_label, del_token });
        i += 1;
    }
    out
}

/// One planned album photo: the entry's position and its poster URL.
pub struct AlbumPhoto {
    pub index: usize,
    pub url: String,
}

/// Plans the poster album for a shortlist: the first ten entries that
/// carry a poster path, each with its image URL, in shortlist order.
pub fn album_plan(list: &Vec<StoredMovie>) -> (r: Vec<AlbumPhoto>)
    ensures
        forall|k: int|
            0 <= k < r@.len() ==> {
                &&& (#[trigger] r@[k]).index < list@.len()
                &&& r@[k].index < 10
                &&& list@[r@[k].index as int].poster_path is Some
                &&& r@[k].url@ == spec_image_url(list@[r@[k].index as int].poster_path->0@)
            },
        forall|i: int|
            0 <= i < list@.len() && i < 10 && list@[i].poster_path is Some ==> exists|k: int|
                0 <= k < r@.len() && (#[trigger] r@[k]).index == i,
        forall|k1: int, k2: int|
            0 <= k1 < k2 < r@.len() ==> (#[trigger] r@[k1]).index < (#[trigger] r@[k2]).index,
{
    let mut out: Vec<AlbumPhoto> = Vec::new();
    let mut i: usize = 0;
    let cap = if list.len() < 10 {
        list.len()
    } else {
        10
    };
    while i < cap
        invariant
            cap <= list@.len(),
            cap <= 10,
            i <= cap,
            forall|k: int|
                0 <= k < out@.len() ==> {
                    &&& (#[trigger] out@[k]).index < list@.len()
                    &&& out@[k].index < 10
                    &&& list@[out@[k].index as int].poster_path is Some
                    &&& out@[k].url@ == spec_image_url(list@[out@[k].index as int].poster_path->0@)
                },
            forall|j: int|
                0 <= j < i as int && list@[j].poster_path is Some ==> exists|k: int|
                    0 <= k < out@.len() && (#[trigger] out@[k]).index == j,
            forall|k: int| 0 <= k < out@.len() ==> (#[trigger] out@[k]).index < i,
            forall|k1: int, k2: int|
                0 <= k1 < k2 < out@.len() ==> (#[trigger] out@[k1]).index < (#[trigger] out@[k2]).index,
        decreases cap - i,
    {
        match &list[i].poster_path {
            Option::Some(p) => {
                let url = crate::client::image_url(p.as_str());
                let ghost oldout = out@;
                out.push(AlbumPhoto { index: i, url });
                proof {
                    assert(out@[out@.len() - 1].index == i);
                    assert forall|j: int|
                        0 <= j < i as int + 1 && list@[j].poster_path is Some implies exists|k: int|
                        0 <= k < out@.len() && (#[trigger] out@[k]).index == j by {
                        if j < i as int {
                            let k0 = choose|k0: int|
                                0 <= k0 < oldout.len() && (#[trigger] oldout[k0]).index == j;
                            assert(out@[k0].index == j);
                        } else {
                            assert(out@[out@.len() - 1].index == j);
                        }
                    }
                }
            },
            Option::None => {},
        }
        i += 1;
    }
    out
}

/// Lines joined with one line break between them.
pub open spec fn spec_lines_joined(lines: Seq<Seq<char>>) -> Seq<char>
    decreases lines.len(),
{
    if lines.len() == 0 {
        Seq::empty()
    } else if lines.len() == 1 {
        lines[0]
    } else {
        lines[0] + seq!['\n'] + spec_lines_joined(lines.drop_first())
    }
}

/// The header and body of the list view: how many of the ten places
/// are taken, then one line per entry.
pub open spec fn spec_list_view_text(lines: Seq<Seq<char>>, n: int) -> Seq<char> {
    "<b>В списке ("@ + spec_u64_chars(n) + "/10):</b>\n"@ + spec_lines_joined(lines)
}

/// Builds the list view text for a nonempty shortlist.
pub fn list_view_text(list: &Vec<StoredMovie>) -> (r: String)
    requires
        list@.len() >= 1,
    ensures
        r@ == spec_list_view_text(
            list@.map_values(
                |m: StoredMovie| spec_title_line(m.title@, opt_view(m.release_date)),
            ),
            list@.len() as int,
        ),
{
    let ghost lines = list@.map_values(
        |m: StoredMovie| spec_title_line(m.title@, opt_view(m.release_date)),
    );
    let mut out = String::from_str("<b>В списке (");
    crate::client::append_u64(&mut out, list.len() as u64);
    out.append("/10):</b>\n");
    let ghost head = out@;
    let mut i: usize = 0;
    let first = one_line_title_stored(&list[0]);
    out.append(first.as_str());
    i = 1;
    while i < list.len()
        invariant
            1 <= i <= list@.len(),
            lines == list@.map_values(
                |m: StoredMovie| spec_title_line(m.title@, opt_view(m.release_date)),
            ),
            lines.len() == list@.len(),
            out@ == head + spec_joined_prefix(lines, i as int),
            head == "<b>В списке ("@ + spec_u64_chars(list@.len() as int) + "/10):</b>\n"@,
        decreases list@.len() - i as int,
    {
        push_char(&mut out, '\n');
        let line = one_line_title_stored(&list[i]);
        out.append(line.as_str());
        proof {
            lemma_joined_prefix_step(lines, i as int);
            assert(out@ =~= head + spec_joined_prefix(lines, i as int + 1));
        }
        i += 1;
    }
    proof {
        lemma_joined_prefix_all(lines);
        assert(out@ =~= spec_list_view_text(lines, list@.len() as int));
    }
    out
}

/// The first `k` lines joined with line breaks.
pub open spec fn spec_joined_prefix(lines: Seq<Seq<char>>, k: int) -> Seq<char>
    decreases k,
{
    if k <= 0 {
        Seq::empty()
    } else if k == 1 {
        lines[0]
    } else {
        spec_joined_prefix(lines, k - 1) + seq!['\n'] + lines[k - 1]
    }
}

/// Appending the next line extends the joined prefix.
proof fn lemma_joined_prefix_step(lines: Seq<Seq<char>>, k: int)
    requires
        1 <= k < lines.len(),
    ensures
        spec_joined_prefix(lines, k + 1) == spec_joined_prefix(lines, k) + seq!['\n'] + lines[k],
{
}

/// The joined prefix of all lines is the joined whole.
proof fn lemma_joined_prefix_all(lines: Seq<Seq<char>>)
    requires
        lines.len() >= 1,
    ensures
        spec_joined_prefix(lines, lines.len() as int) == spec_lines_joined(lines),
    decreases lines.len(),
{
    if lines.len() == 1 {
    } else {
        lemma_joined_prefix_all(lines.drop_first());
        lemma_prefix_shift(lines, lines.len() as int);
        assert(spec_lines_joined(lines) =~= lines[0] + seq!['\n'] + spec_lines_joined(
            lines.drop_first(),
        ));
    }
}

/// A joined prefix decomposes over the head line.
proof fn lemma_prefix_shift(lines: Seq<Seq<char>>, k: int)
    requires
        2 <= k <= lines.len(),
    ensures
        spec_joined_prefix(lines, k) == lines[0] + seq!['\n'] + spec_joined_prefix(
            lines.drop_first(),
            k - 1,
        ),
    decreases k,
{
    if k == 2 {
        assert(spec_joined_prefix(lines, 2) == spec_joined_prefix(lines, 1) + seq!['\n']
            + lines[1]);
        assert(spec_joined_prefix(lines.drop_first(), 1) == lines.drop_first()[0]);
        assert(lines.drop_first()[0] == lines[1]);
        assert(spec_joined_prefix(lines, 2) =~= lines[0] + seq!['\n'] + spec_joined_prefix(
            lines.drop_first(),
            1,
        ));
    } else {
        lemma_prefix_shift(lines, k - 1);
        assert(lines.drop_first()[k - 2] == lines[k - 1]);
        assert(spec_joined_prefix(lines, k) =~= lines[0] + seq!['\n'] + spec_joined_prefix(
            lines.drop_first(),
            k - 1,
        ));
    }
}


/// One line of the trailer list: the escaped title in bold, then the
/// escaped watch URL.
pub fn trailer_line(title: &str, url: &str) -> (r: String)
    ensures
        r@ == "• <b>"@ + spec_html_escape(title@) + "</b>: "@ + spec_html_escape(url@),
{
    let mut out = String::from_str("• <b>");
    let t = html_escape(title);
    out.append(t.as_str());
    out.append("</b>: ");
    let u = html_escape(url);
    out.append(u.as_str());
    out
}

/// The notice shown for each add outcome.
pub open spec fn spec_add_notice(r: AddOutcome) -> Seq<char> {
    match r {
        AddOutcome::Added => "Добавлено"@,
        AddOutcome::AlreadyInList => "Уже в списке"@,
        AddOutcome::ListFull => "В списке уже 10 фильмов"@,
        AddOutcome::NotInLastSearch => "Не нашёл фильм в последнем поиске"@,
    }
}

/// Maps an add outcome to its user-facing notice.
pub fn add_notice(r: AddOutcome) -> (s: &'static str)
    ensures
        s@ == spec_add_notice(r),
{
    match r {
        AddOutcome::Added => "Добавлено",
        AddOutcome::AlreadyInList => "Уже в списке",
        AddOutcome::ListFull => "В списке уже 10 фильмов",
        AddOutcome::NotInLastSearch => "Не нашёл фильм в последнем поиске",
    }
}

/// The notice shown for each delete outcome.
pub open spec fn spec_delete_notice(r: crate::store::DeleteOutcome) -> Seq<char> {
    match r {
        crate::store::DeleteOutcome::Removed => "Удалено"@,
        crate::store::DeleteOutcome::NotFound => "Не найдено в списке"@,
    }
}

/// Maps a delete outcome to its user-facing notice.
pub fn delete_notice(r: crate::store::DeleteOutcome) -> (s: &'static str)
    ensures
        s@ == spec_delete_notice(r),
{
    match r {
        crate::store::DeleteOutcome::Removed => "Удалено",
        crate::store::DeleteOutcome::NotFound => "Не найдено в списке",
    }
}

} // verus!
