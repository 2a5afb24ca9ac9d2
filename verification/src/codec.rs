//! The snapshot codec: the persisted document rendered as one JSON
//! text — a version field and a map from conversation id to its
//! shortlist — and the parser that reads such a text back. The parser
//! accepts exactly the canonical form the encoder writes; reading back
//! a flushed snapshot yields the flushed document, character for
//! character.

use vstd::prelude::*;
use vstd::string::StringExecFns;
use vstd::string::StrSliceExecFns;
use crate::model::{StoredMovie, MovieView, opt_view};
use crate::store::{Document, ChatList, ChatView, DocView, movie_views};
use crate::numfmt::{
    spec_u64_chars, spec_i64_chars, push_i64_chars, is_digit_char, spec_digit_val,
    spec_digits_val, all_digits, lemma_u64_chars_val,
};
use crate::text::push_char;

verus! {

/// How one character is escaped inside a JSON string: a backslash
/// before a quote or a backslash, every other character as it is.
pub open spec fn esc_char(c: char) -> Seq<char> {
    if c == '"' || c == '\\' {
        seq!['\\', c]
    } else {
        seq![c]
    }
}

/// A whole string escaped, character by character.
pub open spec fn esc_str(s: Seq<char>) -> Seq<char>
    decreases s.len(),
{
    if s.len() == 0 {
        Seq::empty()
    } else {
        esc_char(s[0]) + esc_str(s.drop_first())
    }
}

/// A string rendered as a JSON string.
pub open spec fn enc_str(s: Seq<char>) -> Seq<char> {
    seq!['"'] + esc_str(s) + seq!['"']
}

/// An optional string rendered as a JSON string or `null`.
pub open spec fn enc_opt_str(o: Option<Seq<char>>) -> Seq<char> {
    match o {
        Option::Some(s) => enc_str(s),
        Option::None => "null"@,
    }
}

/// One shortlist entry rendered as a JSON object.
pub open spec fn enc_movie(m: MovieView) -> Seq<char> {
    "{\"id\":"@ + spec_u64_chars(m.id as int) + ",\"title\":"@ + enc_str(m.title)
        + ",\"original_title\":"@ + enc_str(m.original_title) + ",\"poster_path\":"@ + enc_opt_str(
        m.poster_path,
    ) + ",\"release_date\":"@ + enc_opt_str(m.release_date) + seq!['}']
}

/// The later entries of a shortlist, each behind a comma.
pub open spec fn enc_movies_rest(ms: Seq<MovieView>) -> Seq<char>
    decreases ms.len(),
{
    if ms.len() == 0 {
        Seq::empty()
    } else {
        seq![','] + enc_movie(ms[0]) + enc_movies_rest(ms.drop_first())
    }
}

/// A shortlist rendered as a JSON array.
pub open spec fn enc_movies(ms: Seq<MovieView>) -> Seq<char> {
    if ms.len() == 0 {
        "[]"@
    } else {
        seq!['['] + enc_movie(ms[0]) + enc_movies_rest(ms.drop_first()) + seq![']']
    }
}

/// One conversation rendered as a JSON object member: the id as the
/// key, the shortlist as the value.
pub open spec fn enc_chat(c: ChatView) -> Seq<char> {
    seq!['"'] + spec_i64_chars(c.chat_id as int) + "\":"@ + enc_movies(c.movies)
}

/// The later conversations, each behind a comma.
pub open spec fn enc_chats_rest(cs: Seq<ChatView>) -> Seq<char>
    decreases cs.len(),
{
    if cs.len() == 0 {
        Seq::empty()
    } else {
        seq![','] + enc_chat(cs[0]) + enc_chats_rest(cs.drop_first())
    }
}

/// The conversation map rendered as a JSON object.
pub open spec fn enc_chats(cs: Seq<ChatView>) -> Seq<char> {
    if cs.len() == 0 {
        "{}"@
    } else {
        seq!['{'] + enc_chat(cs[0]) + enc_chats_rest(cs.drop_first()) + seq!['}']
    }
}

/// The whole document rendered as one JSON text.
pub open spec fn enc_doc(d: DocView) -> Seq<char> {
    "{\"version\":"@ + spec_u64_chars(d.version as int) + ",\"chats\":"@ + enc_chats(d.chats)
        + seq!['}']
}

/// Appends a string, escaped, between quotes.
fn write_str(s: &str, out: &mut String)
    ensures
        final(out)@ == old(out)@ + enc_str(s@),
{
    push_char(out, '"');
    let n = s.unicode_len();
    let mut i: usize = 0;
    proof {
        assert(esc_str(s@.take(0)) =~= Seq::<char>::empty());
        assert(out@ =~= old(out)@ + seq!['"'] + esc_str(s@.take(0)));
    }
    while i < n
        invariant
            n == s@.len(),
            i <= n,
            out@ == old(out)@ + seq!['"'] + esc_str(s@.take(i as int)),
        decreases n - i,
    {
        let c = s.get_char(i);
        if c == '"' || c == '\\' {
            push_char(out, '\\');
            push_char(out, c);
        } else {
            push_char(out, c);
        }
        proof {
            assert(s@.take(i as int).push(s@[i as int]) =~= s@.take(i as int + 1));
            lemma_esc_snoc(s@.take(i as int), s@[i as int]);
            assert(out@ =~= old(out)@ + seq!['"'] + esc_str(s@.take(i as int + 1)));
        }
        i += 1;
    }
    push_char(out, '"');
    proof {
        assert(s@.take(n as int) =~= s@);
        assert(out@ =~= old(out)@ + enc_str(s@));
    }
}

/// Escaping distributes over appending one character.
proof fn lemma_esc_snoc(s: Seq<char>, c: char)
    ensures
        esc_str(s.push(c)) == esc_str(s) + esc_char(c),
    decreases s.len(),
{
    if s.len() == 0 {
        assert(s.push(c)[0] == c);
        assert(s.push(c).drop_first() =~= Seq::<char>::empty());
        assert(esc_str(Seq::<char>::empty()) == Seq::<char>::empty());
        assert(esc_str(s.push(c)) =~= esc_str(s) + esc_char(c));
    } else {
        assert(s.push(c)[0] == s[0]);
        assert(s.push(c).drop_first() =~= s.drop_first().push(c));
        lemma_esc_snoc(s.drop_first(), c);
        assert(esc_str(s.push(c)) =~= esc_str(s) + esc_char(c));
    }
}

/// Appends an optional string as a JSON string or `null`.
fn write_opt_str(o: &Option<String>, out: &mut String)
    ensures
        final(out)@ == old(out)@ + enc_opt_str(opt_view(*o)),
{
    match o {
        Option::Some(s) => write_str(s.as_str(), out),
        Option::None => out.append("null"),
    }
}

/// Appends one shortlist entry.
fn write_movie(m: &StoredMovie, out: &mut String)
    ensures
        final(out)@ == old(out)@ + enc_movie(m@),
{
    out.append("{\"id\":");
    crate::client::append_u64(out, m.id);
    out.append(",\"title\":");
    write_str(m.title.as_str(), out);
    out.append(",\"original_title\":");
    write_str(m.original_title.as_str(), out);
    out.append(",\"poster_path\":");
    write_opt_str(&m.poster_path, out);
    out.append(",\"release_date\":");
    write_opt_str(&m.release_date, out);
    push_char(out, '}');
    proof {
        assert(out@ =~= old(out)@ + enc_movie(m@));
    }
}

/// Appends the later entries of a shortlist, each behind a comma.
fn write_movies_rest(list: &Vec<StoredMovie>, from: usize, out: &mut String)
    requires
        from <= list@.len(),
    ensures
        final(out)@ == old(out)@ + enc_movies_rest(movie_views(list@).skip(from as int)),
    decreases list@.len() - from as int,
{
    let ghost rest = movie_views(list@).skip(from as int);
    if from == list.len() {
        proof {
            assert(rest.len() == 0);
            assert(out@ =~= old(out)@ + enc_movies_rest(rest));
        }
    } else {
        proof {
            assert(rest[0] == movie_views(list@)[from as int]);
            assert(rest.drop_first() =~= movie_views(list@).skip(from as int + 1));
        }
        push_char(out, ',');
        write_movie(&list[from], out);
        write_movies_rest(list, from + 1, out);
        proof {
            assert(out@ =~= old(out)@ + enc_movies_rest(rest));
        }
    }
}

/// Appends a shortlist as a JSON array.
fn write_movies(list: &Vec<StoredMovie>, out: &mut String)
    ensures
        final(out)@ == old(out)@ + enc_movies(movie_views(list@)),
{
    if list.len() == 0 {
        out.append("[]");
        proof {
            assert(movie_views(list@).len() == 0);
        }
    } else {
        push_char(out, '[');
        write_movie(&list[0], out);
        write_movies_rest(list, 1, out);
        push_char(out, ']');
        proof {
            assert(movie_views(list@)[0] == list@[0]@);
            assert(out@ =~= old(out)@ + enc_movies(movie_views(list@)));
        }
    }
}

/// Appends one conversation as an object member.
fn write_chat(c: &ChatList, out: &mut String)
    ensures
        final(out)@ == old(out)@ + enc_chat(c@),
{
    push_char(out, '"');
    let mut digits: Vec<char> = Vec::new();
    push_i64_chars(c.chat_id, &mut digits);
    let mut i: usize = 0;
    let ghost mark = out@;
    while i < digits.len()
        invariant
            i <= digits@.len(),
            out@ == mark + digits@.take(i as int),
        decreases digits@.len() - i as int,
    {
        push_char(out, digits[i]);
        proof {
            assert(digits@.take(i as int).push(digits@[i as int]) =~= digits@.take(i as int + 1));
        }
        i += 1;
    }
    proof {
        assert(digits@.take(digits@.len() as int) =~= digits@);
    }
    out.append("\":");
    write_movies(&c.movies, out);
    proof {
        assert(out@ =~= old(out)@ + enc_chat(c@));
    }
}

/// Appends the later conversations, each behind a comma.
fn write_chats_rest(chats: &Vec<ChatList>, from: usize, out: &mut String)
    requires
        from <= chats@.len(),
    ensures
        final(out)@ == old(out)@ + enc_chats_rest(
            chats@.map_values(|c: ChatList| c@).skip(from as int),
        ),
    decreases chats@.len() - from as int,
{
    let ghost rest = chats@.map_values(|c: ChatList| c@).skip(from as int);
    if from == chats.len() {
        proof {
            assert(rest.len() == 0);
            assert(out@ =~= old(out)@ + enc_chats_rest(rest));
        }
    } else {
        proof {
            assert(rest[0] == chats@.map_values(|c: ChatList| c@)[from as int]);
            assert(rest.drop_first() =~= chats@.map_values(|c: ChatList| c@).skip(
                from as int + 1,
            ));
        }
        push_char(out, ',');
        write_chat(&chats[from], out);
        write_chats_rest(chats, from + 1, out);
        proof {
            assert(out@ =~= old(out)@ + enc_chats_rest(rest));
        }
    }
}

impl Document {
    /// Renders the whole document as its canonical snapshot text.
    pub fn encode(&self) -> (r: String)
        ensures
            r@ == enc_doc(self@),
    {
        let mut out = String::from_str("{\"version\":");
        crate::client::append_u64(&mut out, self.version as u64);
        out.append(",\"chats\":");
        if self.chats.len() == 0 {
            out.append("{}");
            proof {
                assert(self@.chats.len() == 0);
            }
        } else {
            push_char(&mut out, '{');
            write_chat(&self.chats[0], &mut out);
            write_chats_rest(&self.chats, 1, &mut out);
            push_char(&mut out, '}');
            proof {
                assert(self@.chats[0] == self.chats@[0]@);
            }
        }
        push_char(&mut out, '}');
        proof {
            assert(spec_u64_chars(self.version as u64 as int) == spec_u64_chars(
                self@.version as int,
            ));
            assert(out@ =~= enc_doc(self@));
        }
        out
    }
}


/// A literal expected at a position: the index after it, if it is
/// there.
pub open spec fn p_lit(t: Seq<char>, i: int, lit: Seq<char>) -> Option<int> {
    if 0 <= i && i + lit.len() <= t.len() && t.subrange(i, i + lit.len()) == lit {
        Option::Some(i + lit.len())
    } else {
        Option::None
    }
}

/// A string body read up to its closing quote: the characters, with
/// escapes undone, and the index after the quote.
pub open spec fn p_strbody(t: Seq<char>, i: int) -> Option<(Seq<char>, int)>
    decreases t.len() - i,
{
    if i < 0 || i >= t.len() {
        Option::None
    } else if t[i] == '"' {
        Option::Some((Seq::empty(), i + 1))
    } else if t[i] == '\\' {
        if i + 1 < t.len() {
            match p_strbody(t, i + 2) {
                Option::Some((s, j)) => Option::Some((seq![t[i + 1]] + s, j)),
                Option::None => Option::None,
            }
        } else {
            Option::None
        }
    } else {
        match p_strbody(t, i + 1) {
            Option::Some((s, j)) => Option::Some((seq![t[i]] + s, j)),
            Option::None => Option::None,
        }
    }
}

/// A quoted string read whole.
pub open spec fn p_string(t: Seq<char>, i: int) -> Option<(Seq<char>, int)> {
    if 0 <= i && i < t.len() && t[i] == '"' {
        p_strbody(t, i + 1)
    } else {
        Option::None
    }
}

/// A quoted string or the literal `null`.
pub open spec fn p_opt_str(t: Seq<char>, i: int) -> Option<(Option<Seq<char>>, int)> {
    if 0 <= i && i < t.len() && t[i] == '"' {
        match p_strbody(t, i + 1) {
            Option::Some((s, j)) => Option::Some((Option::Some(s), j)),
            Option::None => Option::None,
        }
    } else {
        match p_lit(t, i, "null"@) {
            Option::Some(j) => Option::Some((Option::None, j)),
            Option::None => Option::None,
        }
    }
}

/// The index just after the run of digits starting at a position.
pub open spec fn digit_run_end(t: Seq<char>, i: int) -> int
    decreases t.len() - i,
{
    if 0 <= i && i < t.len() && is_digit_char(t[i]) {
        digit_run_end(t, i + 1)
    } else {
        i
    }
}

/// An unsigned number read greedily: its value and the index after its
/// digits; nothing without a digit, or past the largest value.
pub open spec fn p_u64(t: Seq<char>, i: int) -> Option<(int, int)> {
    let j = digit_run_end(t, i);
    if 0 <= i && j > i && spec_digits_val(t.subrange(i, j)) <= u64::MAX as int {
        Option::Some((spec_digits_val(t.subrange(i, j)), j))
    } else {
        Option::None
    }
}

/// A signed number: a minus sign before the magnitude for negative
/// values; nothing outside the signed range.
pub open spec fn p_i64(t: Seq<char>, i: int) -> Option<(int, int)> {
    if 0 <= i && i < t.len() && t[i] == '-' {
        match p_u64(t, i + 1) {
            Option::Some((v, j)) => if -v >= i64::MIN as int {
                Option::Some((-v, j))
            } else {
                Option::None
            },
            Option::None => Option::None,
        }
    } else {
        match p_u64(t, i) {
            Option::Some((v, j)) => if v <= i64::MAX as int {
                Option::Some((v, j))
            } else {
                Option::None
            },
            Option::None => Option::None,
        }
    }
}

/// One shortlist entry read as the encoder writes it.
pub open spec fn p_movie(t: Seq<char>, i: int) -> Option<(MovieView, int)> {
    match p_lit(t, i, "{\"id\":"@) {
        Option::None => Option::None,
        Option::Some(j1) => match p_u64(t, j1) {
            Option::None => Option::None,
            Option::Some((idv, j2)) => match p_lit(t, j2, ",\"title\":"@) {
                Option::None => Option::None,
                Option::Some(j3) => match p_string(t, j3) {
                    Option::None => Option::None,
                    Option::Some((title, j4)) => match p_lit(t, j4, ",\"original_title\":"@) {
                        Option::None => Option::None,
                        Option::Some(j5) => match p_string(t, j5) {
                            Option::None => Option::None,
                            Option::Some((orig, j6)) => match p_lit(t, j6, ",\"poster_path\":"@) {
                                Option::None => Option::None,
                                Option::Some(j7) => match p_opt_str(t, j7) {
                                    Option::None => Option::None,
                                    Option::Some((poster, j8)) => match p_lit(t, j8, ",\"release_date\":"@) {
                                        Option::None => Option::None,
                                        Option::Some(j9) => match p_opt_str(t, j9) {
                                            Option::None => Option::None,
                                            Option::Some((rd, j10)) => match p_lit(t, j10, "}"@) {
                                                Option::None => Option::None,
                                                Option::Some(j11) => Option::Some(
                                                    (
                                                        MovieView {
                                                            id: idv as u64,
                                                            title: title,
                                                            original_title: orig,
                                                            poster_path: poster,
                                                            release_date: rd,
                                                        },
                                                        j11,
                                                    ),
                                                ),
                                            },
                                        },
                                    },
                                },
                            },
                        },
                    },
                },
            },
        },
    }
}

/// The later entries of a shortlist, each behind a comma.
pub open spec fn p_movies_rest(t: Seq<char>, i: int) -> Option<(Seq<MovieView>, int)>
    decreases t.len() - i,
{
    if 0 <= i && i < t.len() && t[i] == ',' {
        match p_movie(t, i + 1) {
            Option::Some((m, j)) => if i < j <= t.len() {
                match p_movies_rest(t, j) {
                    Option::Some((ms, k)) => Option::Some((seq![m] + ms, k)),
                    Option::None => Option::None,
                }
            } else {
                Option::None
            },
            Option::None => Option::None,
        }
    } else {
        Option::Some((Seq::empty(), i))
    }
}

/// A shortlist read as a JSON array.
pub open spec fn p_movies(t: Seq<char>, i: int) -> Option<(Seq<MovieView>, int)> {
    if 0 <= i && i + 1 < t.len() && t[i] == '[' {
        if t[i + 1] == ']' {
            Option::Some((Seq::empty(), i + 2))
        } else {
            match p_movie(t, i + 1) {
                Option::Some((m, j)) => match p_movies_rest(t, j) {
                    Option::Some((ms, k)) => match p_lit(t, k, "]"@) {
                        Option::Some(e) => Option::Some((seq![m] + ms, e)),
                        Option::None => Option::None,
                    },
                    Option::None => Option::None,
                },
                Option::None => Option::None,
            }
        }
    } else {
        Option::None
    }
}

/// One conversation read as an object member.
pub open spec fn p_chat(t: Seq<char>, i: int) -> Option<(ChatView, int)> {
    match p_lit(t, i, "\""@) {
        Option::None => Option::None,
        Option::Some(j1) => match p_i64(t, j1) {
            Option::None => Option::None,
            Option::Some((cid, j2)) => match p_lit(t, j2, "\":"@) {
                Option::None => Option::None,
                Option::Some(j3) => match p_movies(t, j3) {
                    Option::None => Option::None,
                    Option::Some((ms, j4)) => Option::Some(
                        (ChatView { chat_id: cid as i64, movies: ms }, j4),
                    ),
                },
            },
        },
    }
}

/// The later conversations, each behind a comma.
pub open spec fn p_chats_rest(t: Seq<char>, i: int) -> Option<(Seq<ChatView>, int)>
    decreases t.len() - i,
{
    if 0 <= i && i < t.len() && t[i] == ',' {
        match p_chat(t, i + 1) {
            Option::Some((c, j)) => if i < j <= t.len() {
                match p_chats_rest(t, j) {
                    Option::Some((cs, k)) => Option::Some((seq![c] + cs, k)),
                    Option::None => Option::None,
                }
            } else {
                Option::None
            },
            Option::None => Option::None,
        }
    } else {
        Option::Some((Seq::empty(), i))
    }
}

/// The conversation map read as a JSON object.
pub open spec fn p_chats(t: Seq<char>, i: int) -> Option<(Seq<ChatView>, int)> {
    if 0 <= i && i + 1 < t.len() && t[i] == '{' {
        if t[i + 1] == '}' {
            Option::Some((Seq::empty(), i + 2))
        } else {
            match p_chat(t, i + 1) {
                Option::Some((c, j)) => match p_chats_rest(t, j) {
                    Option::Some((cs, k)) => match p_lit(t, k, "}"@) {
                        Option::Some(e) => Option::Some((seq![c] + cs, e)),
                        Option::None => Option::None,
                    },
                    Option::None => Option::None,
                },
                Option::None => Option::None,
            }
        }
    } else {
        Option::None
    }
}

/// The whole snapshot text read back as a document: exactly the
/// canonical form, spanning the whole text.
pub open spec fn p_doc(t: Seq<char>) -> Option<DocView> {
    match p_lit(t, 0, "{\"version\":"@) {
        Option::None => Option::None,
        Option::Some(j1) => match p_u64(t, j1) {
            Option::None => Option::None,
            Option::Some((v, j2)) => if v <= u32::MAX as int {
                match p_lit(t, j2, ",\"chats\":"@) {
                    Option::None => Option::None,
                    Option::Some(j3) => match p_chats(t, j3) {
                        Option::None => Option::None,
                        Option::Some((cs, j4)) => match p_lit(t, j4, "}"@) {
                            Option::None => Option::None,
                            Option::Some(e) => if e == t.len() {
                                Option::Some(DocView { version: v as u32, chats: cs })
                            } else {
                                Option::None
                            },
                        },
                    },
                }
            } else {
                Option::None
            },
        },
    }
}

/// A literal written at a position is read back past itself.
proof fn lemma_lit_rt(t: Seq<char>, i: int, lit: Seq<char>)
    requires
        0 <= i,
        i + lit.len() <= t.len(),
        t.subrange(i, i + lit.len()) == lit,
    ensures
        p_lit(t, i, lit) == Option::Some(i + lit.len()),
{
}

/// An escaped string written at a position, closed by a quote, is read
/// back exactly.
proof fn lemma_strbody_rt(t: Seq<char>, i: int, s: Seq<char>)
    requires
        0 <= i,
        i + esc_str(s).len() + 1 <= t.len(),
        t.subrange(i, i + esc_str(s).len()) == esc_str(s),
        t[i + esc_str(s).len()] == '"',
    ensures
        p_strbody(t, i) == Option::Some((s, i + esc_str(s).len() + 1)),
    decreases s.len(),
{
    if s.len() == 0 {
        assert(esc_str(s).len() == 0);
        assert(t[i] == '"');
    } else {
        let e = esc_str(s);
        let head = esc_char(s[0]);
        let tail = esc_str(s.drop_first());
        assert(e == head + tail);
        assert forall|x: int| 0 <= x < e.len() implies t[i + x] == e[x] by {
            assert(t.subrange(i, i + e.len())[x] == t[i + x]);
        }
        if s[0] == '"' || s[0] == '\\' {
            assert(head == seq!['\\', s[0]]);
            assert(e[0] == '\\');
            assert(e[1] == s[0]);
            assert(t[i] == '\\');
            assert(t[i + 1] == s[0]);
            assert forall|x: int| 0 <= x < tail.len() implies t.subrange(
                i + 2,
                i + 2 + tail.len(),
            )[x] == tail[x] by {
                assert(e[2 + x] == tail[x]);
                assert(t[i + 2 + x] == e[2 + x]);
            }
            assert(t.subrange(i + 2, i + 2 + tail.len()) =~= tail);
            assert(t[i + 2 + tail.len()] == '"');
            lemma_strbody_rt(t, i + 2, s.drop_first());
            assert(seq![t[i + 1]] + s.drop_first() =~= s);
            assert(i + 1 < t.len());
        } else {
            assert(head == seq![s[0]]);
            assert(e[0] == s[0]);
            assert(t[i] == s[0]);
            assert(t[i] != '"' && t[i] != '\\');
            assert forall|x: int| 0 <= x < tail.len() implies t.subrange(
                i + 1,
                i + 1 + tail.len(),
            )[x] == tail[x] by {
                assert(e[1 + x] == tail[x]);
                assert(t[i + 1 + x] == e[1 + x]);
            }
            assert(t.subrange(i + 1, i + 1 + tail.len()) =~= tail);
            assert(t[i + 1 + tail.len()] == '"');
            lemma_strbody_rt(t, i + 1, s.drop_first());
            assert(seq![t[i]] + s.drop_first() =~= s);
        }
    }
}

/// A quoted string written at a position is read back exactly.
proof fn lemma_encstr_rt(t: Seq<char>, i: int, s: Seq<char>)
    requires
        0 <= i,
        i + enc_str(s).len() <= t.len(),
        t.subrange(i, i + enc_str(s).len()) == enc_str(s),
    ensures
        p_string(t, i) == Option::Some((s, i + enc_str(s).len())),
        t[i] == '"',
    decreases s.len(),
{
    let e = enc_str(s);
    assert forall|x: int| 0 <= x < e.len() implies t[i + x] == e[x] by {
        assert(t.subrange(i, i + e.len())[x] == t[i + x]);
    }
    assert(e[0] == '"');
    assert(t[i] == '"');
    assert forall|x: int| 0 <= x < esc_str(s).len() implies t.subrange(
        i + 1,
        i + 1 + esc_str(s).len(),
    )[x] == esc_str(s)[x] by {
        assert(e[1 + x] == esc_str(s)[x]);
        assert(t[i + 1 + x] == e[1 + x]);
    }
    assert(t.subrange(i + 1, i + 1 + esc_str(s).len()) =~= esc_str(s));
    assert(e[1 + esc_str(s).len() as int] == '"');
    assert(t[i + 1 + esc_str(s).len()] == '"');
    lemma_strbody_rt(t, i + 1, s);
}

/// An optional string written at a position is read back exactly.
proof fn lemma_optstr_rt(t: Seq<char>, i: int, o: Option<Seq<char>>)
    requires
        0 <= i,
        i + enc_opt_str(o).len() <= t.len(),
        t.subrange(i, i + enc_opt_str(o).len()) == enc_opt_str(o),
    ensures
        p_opt_str(t, i) == Option::Some((o, i + enc_opt_str(o).len())),
{
    match o {
        Option::Some(s) => {
            lemma_encstr_rt(t, i, s);
        },
        Option::None => {
            let e = "null"@;
            reveal_strlit("null");
            assert(t.subrange(i, i + e.len())[0] == t[i]);
            assert(t[i] == 'n');
            lemma_lit_rt(t, i, e);
        },
    }
}

/// The run of digits written at a position ends exactly where the
/// written digits end.
proof fn lemma_digit_run(t: Seq<char>, i: int, j: int)
    requires
        0 <= i <= j <= t.len(),
        all_digits(t.subrange(i, j)),
        j == t.len() || !is_digit_char(t[j]),
    ensures
        digit_run_end(t, i) == j,
    decreases j - i,
{
    if i < j {
        assert(t.subrange(i, j)[0] == t[i]);
        assert(is_digit_char(t[i]));
        assert forall|x: int| 0 <= x < j - i - 1 implies is_digit_char(
            #[trigger] t.subrange(i + 1, j)[x],
        ) by {
            assert(t.subrange(i + 1, j)[x] == t.subrange(i, j)[x + 1]);
        }
        lemma_digit_run(t, i + 1, j);
    }
}

/// An unsigned number written at a position, followed by a non-digit,
/// is read back exactly.
proof fn lemma_u64_rt(t: Seq<char>, i: int, n: int)
    requires
        0 <= n <= u64::MAX as int,
        0 <= i,
        i + spec_u64_chars(n).len() <= t.len(),
        t.subrange(i, i + spec_u64_chars(n).len()) == spec_u64_chars(n),
        i + spec_u64_chars(n).len() == t.len() || !is_digit_char(t[i + spec_u64_chars(n).len()]),
    ensures
        p_u64(t, i) == Option::Some((n, i + spec_u64_chars(n).len())),
{
    lemma_u64_chars_val(n);
    let j = i + spec_u64_chars(n).len();
    lemma_digit_run(t, i, j);
}

/// A signed number written at a position, followed by a non-digit, is
/// read back exactly.
proof fn lemma_i64_rt(t: Seq<char>, i: int, n: int)
    requires
        i64::MIN as int <= n <= i64::MAX as int,
        0 <= i,
        i + spec_i64_chars(n).len() <= t.len(),
        t.subrange(i, i + spec_i64_chars(n).len()) == spec_i64_chars(n),
        i + spec_i64_chars(n).len() == t.len() || !is_digit_char(t[i + spec_i64_chars(n).len()]),
    ensures
        p_i64(t, i) == Option::Some((n, i + spec_i64_chars(n).len())),
{
    let e = spec_i64_chars(n);
    assert forall|x: int| 0 <= x < e.len() implies t[i + x] == e[x] by {
        assert(t.subrange(i, i + e.len())[x] == t[i + x]);
    }
    if n >= 0 {
        lemma_u64_chars_val(n);
        assert(t.subrange(i, i + e.len()) == spec_u64_chars(n));
        lemma_u64_rt(t, i, n);
        assert(is_digit_char(t[i]));
        assert(t[i] != '-') by {
            assert(('-') as u32 == 45);
        }
    } else {
        assert(e[0] == '-');
        assert(t[i] == '-');
        let mag = spec_u64_chars(-n);
        lemma_u64_chars_val(-n);
        assert forall|x: int| 0 <= x < mag.len() implies t.subrange(i + 1, i + 1 + mag.len())[x]
            == mag[x] by {
            assert(e[1 + x] == mag[x]);
            assert(t[i + 1 + x] == e[1 + x]);
        }
        assert(t.subrange(i + 1, i + 1 + mag.len()) =~= mag);
        lemma_u64_rt(t, i + 1, -n);
    }
}


/// A written part followed by a written rest splits into the two.
proof fn lemma_split(t: Seq<char>, i: int, part: Seq<char>, rest: Seq<char>)
    requires
        0 <= i,
        i + part.len() + rest.len() <= t.len(),
        t.subrange(i, i + part.len() + rest.len()) == part + rest,
    ensures
        t.subrange(i, i + part.len()) == part,
        t.subrange(i + part.len(), i + part.len() + rest.len()) == rest,
{
    let whole = part + rest;
    assert forall|x: int| 0 <= x < part.len() implies t.subrange(i, i + part.len())[x]
        == part[x] by {
        assert(t.subrange(i, i + whole.len())[x] == t[i + x]);
        assert(whole[x] == part[x]);
    }
    assert(t.subrange(i, i + part.len()) =~= part);
    assert forall|x: int| 0 <= x < rest.len() implies t.subrange(
        i + part.len(),
        i + part.len() + rest.len(),
    )[x] == rest[x] by {
        assert(t.subrange(i, i + whole.len())[part.len() + x] == t[i + part.len() + x]);
        assert(whole[part.len() + x] == rest[x]);
    }
    assert(t.subrange(i + part.len(), i + part.len() + rest.len()) =~= rest);
}

/// A shortlist entry written at a position is read back exactly.
#[verifier::rlimit(100)]
#[verifier::spinoff_prover]
proof fn lemma_movie_rt(t: Seq<char>, i: int, m: MovieView)
    requires
        0 <= i,
        i + enc_movie(m).len() <= t.len(),
        t.subrange(i, i + enc_movie(m).len()) == enc_movie(m),
    ensures
        p_movie(t, i) == Option::Some((m, i + enc_movie(m).len())),
{
    reveal_strlit("{\"id\":");
    reveal_strlit(",\"title\":");
    reveal_strlit(",\"original_title\":");
    reveal_strlit(",\"poster_path\":");
    reveal_strlit(",\"release_date\":");
    reveal_strlit("}");
    let a1 = "{\"id\":"@;
    let a2 = spec_u64_chars(m.id as int);
    let a3 = ",\"title\":"@;
    let a4 = enc_str(m.title);
    let a5 = ",\"original_title\":"@;
    let a6 = enc_str(m.original_title);
    let a7 = ",\"poster_path\":"@;
    let a8 = enc_opt_str(m.poster_path);
    let a9 = ",\"release_date\":"@;
    let a10 = enc_opt_str(m.release_date);
    let a11 = seq!['}'];
    let w2 = a1 + a2;
    let w3 = w2 + a3;
    let w4 = w3 + a4;
    let w5 = w4 + a5;
    let w6 = w5 + a6;
    let w7 = w6 + a7;
    let w8 = w7 + a8;
    let w9 = w8 + a9;
    let w10 = w9 + a10;
    lemma_split(t, i, w10, a11);
    lemma_split(t, i, w9, a10);
    lemma_split(t, i, w8, a9);
    lemma_split(t, i, w7, a8);
    lemma_split(t, i, w6, a7);
    lemma_split(t, i, w5, a6);
    lemma_split(t, i, w4, a5);
    lemma_split(t, i, w3, a4);
    lemma_split(t, i, w2, a3);
    lemma_split(t, i, a1, a2);
    let i1 = i + a1.len();
    let i2 = i1 + a2.len();
    let i3 = i2 + a3.len();
    let i4 = i3 + a4.len();
    let i5 = i4 + a5.len();
    let i6 = i5 + a6.len();
    let i7 = i6 + a7.len();
    let i8 = i7 + a8.len();
    let i9 = i8 + a9.len();
    let i10 = i9 + a10.len();
    lemma_lit_rt(t, i, a1);
    assert(t.subrange(i2, i3)[0] == t[i2]);
    assert(t[i2] == ',');
    assert(!is_digit_char(',')) by {
        assert((',') as u32 == 44);
    }
    lemma_u64_rt(t, i1, m.id as int);
    lemma_lit_rt(t, i2, a3);
    lemma_encstr_rt(t, i3, m.title);
    lemma_lit_rt(t, i4, a5);
    lemma_encstr_rt(t, i5, m.original_title);
    lemma_lit_rt(t, i6, a7);
    lemma_optstr_rt(t, i7, m.poster_path);
    lemma_lit_rt(t, i8, a9);
    lemma_optstr_rt(t, i9, m.release_date);
    assert("}"@ =~= seq!['}']);
    lemma_lit_rt(t, i10, a11);
    assert(m.id as int as u64 == m.id);
}

/// The later entries of a shortlist, written at a position and closed
/// by the array's bracket, are read back exactly.
#[verifier::rlimit(100)]
#[verifier::spinoff_prover]
proof fn lemma_movies_rest_rt(t: Seq<char>, i: int, ms: Seq<MovieView>)
    requires
        0 <= i,
        i + enc_movies_rest(ms).len() < t.len(),
        t.subrange(i, i + enc_movies_rest(ms).len()) == enc_movies_rest(ms),
        t[i + enc_movies_rest(ms).len()] == ']',
    ensures
        p_movies_rest(t, i) == Option::Some((ms, i + enc_movies_rest(ms).len())),
    decreases ms.len(),
{
    if ms.len() == 0 {
        assert(t[i] == ']');
    } else {
        let a1 = seq![','];
        let a2 = enc_movie(ms[0]);
        let a3 = enc_movies_rest(ms.drop_first());
        let r2 = a2 + a3;
        assert(enc_movies_rest(ms) =~= a1 + r2);
        lemma_split(t, i, a1, r2);
        assert(t.subrange(i, i + 1)[0] == t[i]);
        assert(t[i] == ',');
        let i1 = i + 1;
        lemma_split(t, i1, a2, a3);
        lemma_movie_rt(t, i1, ms[0]);
        let i2 = i1 + a2.len();
        lemma_movies_rest_rt(t, i2, ms.drop_first());
        assert(seq![ms[0]] + ms.drop_first() =~= ms);
    }
}

/// A shortlist written as an array at a position is read back exactly.
#[verifier::rlimit(100)]
#[verifier::spinoff_prover]
proof fn lemma_movies_rt(t: Seq<char>, i: int, ms: Seq<MovieView>)
    requires
        0 <= i,
        i + enc_movies(ms).len() <= t.len(),
        t.subrange(i, i + enc_movies(ms).len()) == enc_movies(ms),
    ensures
        p_movies(t, i) == Option::Some((ms, i + enc_movies(ms).len())),
{
    reveal_strlit("[]");
    reveal_strlit("]");
    reveal_strlit("{\"id\":");
    let e = enc_movies(ms);
    if ms.len() == 0 {
        assert(t.subrange(i, i + e.len())[0] == t[i]);
        assert(t.subrange(i, i + e.len())[1] == t[i + 1]);
        assert(t[i] == '[');
        assert(t[i + 1] == ']');
    } else {
        let a1 = seq!['['];
        let a2 = enc_movie(ms[0]);
        let a3 = enc_movies_rest(ms.drop_first());
        let a4 = seq![']'];
        let r3 = a4;
        let r2 = a3 + r3;
        let r1 = a2 + r2;
        assert(e =~= a1 + r1);
        lemma_split(t, i, a1, r1);
        assert(t.subrange(i, i + 1)[0] == t[i]);
        assert(t[i] == '[');
        let i1 = i + 1;
        lemma_split(t, i1, a2, r2);
        lemma_movie_rt(t, i1, ms[0]);
        assert(("{\"id\":"@)[0] == '{');
        assert(a2[0] == '{');
        assert(t.subrange(i1, i1 + a2.len())[0] == t[i1]);
        assert(t[i1] == '{');
        let i2 = i1 + a2.len();
        lemma_split(t, i2, a3, r3);
        assert(t.subrange(i2 + a3.len(), i2 + a3.len() + 1)[0] == t[i2 + a3.len()]);
        assert(t[i2 + a3.len()] == ']');
        lemma_movies_rest_rt(t, i2, ms.drop_first());
        let i3 = i2 + a3.len();
        assert("]"@ =~= seq![']']);
        lemma_lit_rt(t, i3, "]"@);
        assert(seq![ms[0]] + ms.drop_first() =~= ms);
    }
}

/// One conversation written as an object member at a position is read
/// back exactly.
#[verifier::rlimit(100)]
#[verifier::spinoff_prover]
proof fn lemma_chat_rt(t: Seq<char>, i: int, c: ChatView)
    requires
        0 <= i,
        i + enc_chat(c).len() <= t.len(),
        t.subrange(i, i + enc_chat(c).len()) == enc_chat(c),
    ensures
        p_chat(t, i) == Option::Some((c, i + enc_chat(c).len())),
{
    reveal_strlit("\"");
    reveal_strlit("\":");
    let a1 = seq!['"'];
    let a2 = spec_i64_chars(c.chat_id as int);
    let a3 = "\":"@;
    let a4 = enc_movies(c.movies);
    let r3 = a4;
    let r2 = a3 + r3;
    let r1 = a2 + r2;
    assert(enc_chat(c) =~= a1 + r1);
    lemma_split(t, i, a1, r1);
    assert(t.subrange(i, i + 1)[0] == t[i]);
    assert(t[i] == '"');
    assert("\""@ =~= seq!['"']);
    lemma_lit_rt(t, i, "\""@);
    let i1 = i + 1;
    lemma_split(t, i1, a2, r2);
    let i2 = i1 + a2.len();
    lemma_split(t, i2, a3, r3);
    assert(t.subrange(i2, i2 + a3.len())[0] == t[i2]);
    assert(t[i2] == '"');
    assert(!is_digit_char('"')) by {
        assert(('"') as u32 == 34);
    }
    lemma_i64_rt(t, i1, c.chat_id as int);
    lemma_lit_rt(t, i2, a3);
    let i3 = i2 + a3.len();
    lemma_movies_rt(t, i3, c.movies);
    assert(c.chat_id as int as i64 == c.chat_id);
}

/// The later conversations, written at a position and closed by the
/// object's brace, are read back exactly.
#[verifier::rlimit(100)]
#[verifier::spinoff_prover]
proof fn lemma_chats_rest_rt(t: Seq<char>, i: int, cs: Seq<ChatView>)
    requires
        0 <= i,
        i + enc_chats_rest(cs).len() < t.len(),
        t.subrange(i, i + enc_chats_rest(cs).len()) == enc_chats_rest(cs),
        t[i + enc_chats_rest(cs).len()] == '}',
    ensures
        p_chats_rest(t, i) == Option::Some((cs, i + enc_chats_rest(cs).len())),
    decreases cs.len(),
{
    if cs.len() == 0 {
        assert(t[i] == '}');
    } else {
        let a1 = seq![','];
        let a2 = enc_chat(cs[0]);
        let a3 = enc_chats_rest(cs.drop_first());
        let r2 = a2 + a3;
        assert(enc_chats_rest(cs) =~= a1 + r2);
        lemma_split(t, i, a1, r2);
        assert(t.subrange(i, i + 1)[0] == t[i]);
        assert(t[i] == ',');
        let i1 = i + 1;
        lemma_split(t, i1, a2, a3);
        lemma_chat_rt(t, i1, cs[0]);
        let i2 = i1 + a2.len();
        lemma_chats_rest_rt(t, i2, cs.drop_first());
        assert(seq![cs[0]] + cs.drop_first() =~= cs);
    }
}

/// The conversation map written as an object at a position is read
/// back exactly.
#[verifier::rlimit(100)]
#[verifier::spinoff_prover]
proof fn lemma_chats_rt(t: Seq<char>, i: int, cs: Seq<ChatView>)
    requires
        0 <= i,
        i + enc_chats(cs).len() <= t.len(),
        t.subrange(i, i + enc_chats(cs).len()) == enc_chats(cs),
    ensures
        p_chats(t, i) == Option::Some((cs, i + enc_chats(cs).len())),
{
    reveal_strlit("{}");
    reveal_strlit("}");
    let e = enc_chats(cs);
    if cs.len() == 0 {
        assert(t.subrange(i, i + e.len())[0] == t[i]);
        assert(t.subrange(i, i + e.len())[1] == t[i + 1]);
        assert(t[i] == '{');
        assert(t[i + 1] == '}');
    } else {
        let a1 = seq!['{'];
        let a2 = enc_chat(cs[0]);
        let a3 = enc_chats_rest(cs.drop_first());
        let a4 = seq!['}'];
        let r3 = a4;
        let r2 = a3 + r3;
        let r1 = a2 + r2;
        assert(e =~= a1 + r1);
        lemma_split(t, i, a1, r1);
        assert(t.subrange(i, i + 1)[0] == t[i]);
        assert(t[i] == '{');
        let i1 = i + 1;
        lemma_split(t, i1, a2, r2);
        lemma_chat_rt(t, i1, cs[0]);
        assert(a2[0] == '"');
        assert(t.subrange(i1, i1 + a2.len())[0] == t[i1]);
        assert(t[i1] == '"');
        let i2 = i1 + a2.len();
        lemma_split(t, i2, a3, r3);
        assert(t.subrange(i2 + a3.len(), i2 + a3.len() + 1)[0] == t[i2 + a3.len()]);
        assert(t[i2 + a3.len()] == '}');
        lemma_chats_rest_rt(t, i2, cs.drop_first());
        let i3 = i2 + a3.len();
        assert("}"@ =~= seq!['}']);
        lemma_lit_rt(t, i3, "}"@);
        assert(seq![cs[0]] + cs.drop_first() =~= cs);
    }
}

/// Reading back a flushed snapshot yields exactly the document that
/// was flushed: a flush followed by a crash and a reload reconstructs
/// the document of the last completed flush.
#[verifier::rlimit(100)]
#[verifier::spinoff_prover]
pub proof fn lemma_snapshot_roundtrip(d: DocView)
    ensures
        p_doc(enc_doc(d)) == Option::Some(d),
{
    reveal_strlit("{\"version\":");
    reveal_strlit(",\"chats\":");
    reveal_strlit("}");
    let t = enc_doc(d);
    let a1 = "{\"version\":"@;
    let a2 = spec_u64_chars(d.version as int);
    let a3 = ",\"chats\":"@;
    let a4 = enc_chats(d.chats);
    let a5 = seq!['}'];
    let w2 = a1 + a2;
    let w3 = w2 + a3;
    let w4 = w3 + a4;
    assert(t.subrange(0, t.len() as int) =~= t);
    lemma_split(t, 0, w4, a5);
    lemma_split(t, 0, w3, a4);
    lemma_split(t, 0, w2, a3);
    lemma_split(t, 0, a1, a2);
    let i1 = a1.len() as int;
    let i2 = i1 + a2.len();
    let i3 = i2 + a3.len();
    let i4 = i3 + a4.len();
    lemma_lit_rt(t, 0, a1);
    assert(t.subrange(i2, i3)[0] == t[i2]);
    assert(t[i2] == ',');
    assert(!is_digit_char(',')) by {
        assert((',') as u32 == 44);
    }
    lemma_u64_rt(t, i1, d.version as int);
    lemma_lit_rt(t, i2, a3);
    lemma_chats_rt(t, i3, d.chats);
    assert("}"@ =~= seq!['}']);
    lemma_lit_rt(t, i4, a5);
    assert(d.version as int as u32 == d.version);
}


/// Every character inside a digit run is a digit.
proof fn lemma_run_digits(t: Seq<char>, i: int)
    requires
        0 <= i <= t.len(),
    ensures
        i <= digit_run_end(t, i) <= t.len(),
        all_digits(t.subrange(i, digit_run_end(t, i))),
    decreases t.len() - i,
{
    if 0 <= i && i < t.len() && is_digit_char(t[i]) {
        lemma_run_digits(t, i + 1);
        let j = digit_run_end(t, i);
        assert forall|x: int| 0 <= x < j - i implies is_digit_char(
            #[trigger] t.subrange(i, j)[x],
        ) by {
            if x == 0 {
                assert(t.subrange(i, j)[0] == t[i]);
            } else {
                assert(t.subrange(i, j)[x] == t.subrange(i + 1, j)[x - 1]);
            }
        }
    }
}

/// Expects a literal at a position.
fn expect_lit(t: &Vec<char>, i: usize, lit: &str) -> (r: Option<usize>)
    requires
        i <= t@.len(),
    ensures
        match r {
            Option::Some(j) => p_lit(t@, i as int, lit@) == Option::Some(j as int) && i <= j
                <= t@.len(),
            Option::None => p_lit(t@, i as int, lit@) is None,
        },
{
    let n = lit.unicode_len();
    if n > t.len() - i {
        return Option::None;
    }
    let mut k: usize = 0;
    while k < n
        invariant
            i + n <= t@.len(),
            t@.len() <= usize::MAX as int,
            n == lit@.len(),
            k <= n,
            forall|x: int| 0 <= x < k as int ==> t@[i as int + x] == lit@[x],
        decreases n - k,
    {
        if t[i + k] != lit.get_char(k) {
            proof {
                if t@.subrange(i as int, i as int + n as int) == lit@ {
                    assert(t@.subrange(i as int, i as int + n as int)[k as int] == t@[i as int
                        + k as int]);
                }
            }
            return Option::None;
        }
        k += 1;
    }
    proof {
        assert(t@.subrange(i as int, i as int + n as int) =~= lit@);
    }
    Option::Some(i + n)
}

/// Reads a string body up to its closing quote, undoing escapes.
fn parse_strbody(t: &Vec<char>, i: usize) -> (r: Option<(String, usize)>)
    requires
        i <= t@.len(),
    ensures
        match r {
            Option::Some((s, j)) => p_strbody(t@, i as int) == Option::Some((s@, j as int)) && i
                <= j <= t@.len(),
            Option::None => p_strbody(t@, i as int) is None,
        },
    decreases t@.len() - i as int,
{
    if i >= t.len() {
        return Option::None;
    }
    let c = t[i];
    if c == '"' {
        let s = String::new();
        proof {
            assert(s@ =~= Seq::<char>::empty());
        }
        return Option::Some((s, i + 1));
    }
    if c == '\\' {
        if i + 1 < t.len() {
            match parse_strbody(t, i + 2) {
                Option::Some((s, j)) => {
                    let mut out = String::new();
                    push_char(&mut out, t[i + 1]);
                    out.append(s.as_str());
                    proof {
                        assert(out@ =~= seq![t@[i as int + 1]] + s@);
                    }
                    Option::Some((out, j))
                },
                Option::None => Option::None,
            }
        } else {
            Option::None
        }
    } else {
        match parse_strbody(t, i + 1) {
            Option::Some((s, j)) => {
                let mut out = String::new();
                push_char(&mut out, c);
                out.append(s.as_str());
                proof {
                    assert(out@ =~= seq![t@[i as int]] + s@);
                }
                Option::Some((out, j))
            },
            Option::None => Option::None,
        }
    }
}

/// Reads a quoted string.
fn parse_string(t: &Vec<char>, i: usize) -> (r: Option<(String, usize)>)
    requires
        i <= t@.len(),
    ensures
        match r {
            Option::Some((s, j)) => p_string(t@, i as int) == Option::Some((s@, j as int)) && i <= j
                <= t@.len(),
            Option::None => p_string(t@, i as int) is None,
        },
{
    if i < t.len() && t[i] == '"' {
        parse_strbody(t, i + 1)
    } else {
        Option::None
    }
}

/// Reads a quoted string or the literal `null`.
fn parse_opt_str(t: &Vec<char>, i: usize) -> (r: Option<(Option<String>, usize)>)
    requires
        i <= t@.len(),
    ensures
        match r {
            Option::Some((o, j)) => p_opt_str(t@, i as int) == Option::Some(
                (opt_view(o), j as int),
            ) && i <= j <= t@.len(),
            Option::None => p_opt_str(t@, i as int) is None,
        },
{
    if i < t.len() && t[i] == '"' {
        match parse_strbody(t, i + 1) {
            Option::Some((s, j)) => Option::Some((Option::Some(s), j)),
            Option::None => Option::None,
        }
    } else {
        match expect_lit(t, i, "null") {
            Option::Some(j) => Option::Some((Option::None, j)),
            Option::None => Option::None,
        }
    }
}

/// The index just after the digit run at a position.
fn run_end(t: &Vec<char>, i: usize) -> (j: usize)
    requires
        i <= t@.len(),
    ensures
        j as int == digit_run_end(t@, i as int),
        i <= j <= t@.len(),
    decreases t@.len() - i as int,
{
    if i < t.len() {
        let u = t[i] as u32;
        if 48 <= u && u <= 57 {
            proof {
                assert(is_digit_char(t@[i as int]));
            }
            return run_end(t, i + 1);
        }
        proof {
            assert(!is_digit_char(t@[i as int]));
        }
    }
    i
}

/// Reads an unsigned number greedily.
fn parse_u64_at(t: &Vec<char>, i: usize) -> (r: Option<(u64, usize)>)
    requires
        i <= t@.len(),
    ensures
        match r {
            Option::Some((v, j)) => p_u64(t@, i as int) == Option::Some((v as int, j as int)) && i
                < j <= t@.len(),
            Option::None => p_u64(t@, i as int) is None,
        },
{
    let end = run_end(t, i);
    if end == i {
        return Option::None;
    }
    let ghost whole = t@.subrange(i as int, end as int);
    proof {
        lemma_run_digits(t@, i as int);
    }
    let mut v: u64 = 0;
    let mut k: usize = i;
    proof {
        assert(t@.subrange(i as int, i as int) =~= Seq::<char>::empty());
    }
    while k < end
        invariant
            i <= k <= end <= t@.len(),
            end as int == digit_run_end(t@, i as int),
            whole == t@.subrange(i as int, end as int),
            all_digits(whole),
            all_digits(t@.subrange(i as int, k as int)),
            spec_digits_val(t@.subrange(i as int, k as int)) == v,
        decreases end - k,
    {
        proof {
            assert(whole[k as int - i as int] == t@[k as int]);
            assert(is_digit_char(t@[k as int]));
        }
        let u = t[k] as u32;
        let d = (u - 48) as u64;
        if v > (u64::MAX - d) / 10 {
            proof {
                let pre = t@.subrange(i as int, k as int);
                let post = t@.subrange(i as int, k as int + 1);
                assert(pre.push(t@[k as int]) =~= post);
                assert(post.drop_last() =~= pre);
                assert(spec_digit_val(t@[k as int]) == (u - 48) as int);
                assert(spec_digits_val(post) == v * 10 + (u - 48));
                assert(whole.take(k as int + 1 - i as int) =~= post);
                crate::numfmt::lemma_digits_val_prefix(whole, k as int + 1 - i as int);
                assert(spec_digits_val(whole) >= v * 10 + (u - 48));
                assert(v * 10 + (u - 48) > u64::MAX as int);
            }
            return Option::None;
        }
        v = v * 10 + d;
        proof {
            let pre = t@.subrange(i as int, k as int);
            let post = t@.subrange(i as int, k as int + 1);
            assert(pre.push(t@[k as int]) =~= post);
            assert(post.drop_last() =~= pre);
            assert forall|x: int| 0 <= x < post.len() implies is_digit_char(
                #[trigger] post[x],
            ) by {
                if x < pre.len() {
                    assert(post[x] == pre[x]);
                }
            }
            assert(spec_digit_val(t@[k as int]) == d as int);
            assert(spec_digits_val(post) == spec_digits_val(pre) * 10 + spec_digit_val(
                t@[k as int],
            ));
        }
        k += 1;
    }
    Option::Some((v, end))
}

/// Reads a signed number.
fn parse_i64_at(t: &Vec<char>, i: usize) -> (r: Option<(i64, usize)>)
    requires
        i <= t@.len(),
    ensures
        match r {
            Option::Some((v, j)) => p_i64(t@, i as int) == Option::Some((v as int, j as int)) && i
                < j <= t@.len(),
            Option::None => p_i64(t@, i as int) is None,
        },
{
    if i < t.len() && t[i] == '-' {
        match parse_u64_at(t, i + 1) {
            Option::Some((mag, j)) => {
                if mag <= 9223372036854775807u64 {
                    Option::Some((-(mag as i64), j))
                } else if mag == 9223372036854775808u64 {
                    Option::Some((i64::MIN, j))
                } else {
                    Option::None
                }
            },
            Option::None => Option::None,
        }
    } else {
        match parse_u64_at(t, i) {
            Option::Some((v, j)) => {
                if v <= 9223372036854775807u64 {
                    Option::Some((v as i64, j))
                } else {
                    Option::None
                }
            },
            Option::None => Option::None,
        }
    }
}

/// Reads one shortlist entry.
fn parse_movie(t: &Vec<char>, i: usize) -> (r: Option<(StoredMovie, usize)>)
    requires
        i <= t@.len(),
    ensures
        match r {
            Option::Some((m, j)) => p_movie(t@, i as int) == Option::Some((m@, j as int)) && i < j
                <= t@.len(),
            Option::None => p_movie(t@, i as int) is None,
        },
{
    let j1 = match expect_lit(t, i, "{\"id\":") {
        Option::Some(j) => j,
        Option::None => {
            return Option::None;
        },
    };
    let (idv, j2) = match parse_u64_at(t, j1) {
        Option::Some(p) => p,
        Option::None => {
            return Option::None;
        },
    };
    let j3 = match expect_lit(t, j2, ",\"title\":") {
        Option::Some(j) => j,
        Option::None => {
            return Option::None;
        },
    };
    let (title, j4) = match parse_string(t, j3) {
        Option::Some(p) => p,
        Option::None => {
            return Option::None;
        },
    };
    let j5 = match expect_lit(t, j4, ",\"original_title\":") {
        Option::Some(j) => j,
        Option::None => {
            return Option::None;
        },
    };
    let (orig, j6) = match parse_string(t, j5) {
        Option::Some(p) => p,
        Option::None => {
            return Option::None;
        },
    };
    let j7 = match expect_lit(t, j6, ",\"poster_path\":") {
        Option::Some(j) => j,
        Option::None => {
            return Option::None;
        },
    };
    let (poster, j8) = match parse_opt_str(t, j7) {
        Option::Some(p) => p,
        Option::None => {
            return Option::None;
        },
    };
    let j9 = match expect_lit(t, j8, ",\"release_date\":") {
        Option::Some(j) => j,
        Option::None => {
            return Option::None;
        },
    };
    let (rd, j10) = match parse_opt_str(t, j9) {
        Option::Some(p) => p,
        Option::None => {
            return Option::None;
        },
    };
    let j11 = match expect_lit(t, j10, "}") {
        Option::Some(j) => j,
        Option::None => {
            return Option::None;
        },
    };
    let m = StoredMovie {
        id: idv,
        title,
        original_title: orig,
        poster_path: poster,
        release_date: rd,
    };
    Option::Some((m, j11))
}

/// Reads the later entries of a shortlist.
fn parse_movies_rest(t: &Vec<char>, i: usize) -> (r: Option<(Vec<StoredMovie>, usize)>)
    requires
        i <= t@.len(),
    ensures
        match r {
            Option::Some((ms, j)) => p_movies_rest(t@, i as int) == Option::Some(
                (movie_views(ms@), j as int),
            ) && i <= j <= t@.len(),
            Option::None => p_movies_rest(t@, i as int) is None,
        },
    decreases t@.len() - i as int,
{
    if i < t.len() && t[i] == ',' {
        match parse_movie(t, i + 1) {
            Option::Some((m, j)) => {
                match parse_movies_rest(t, j) {
                    Option::Some((mut ms, k)) => {
                        ms.insert(0, m);
                        proof {
                            assert(movie_views(ms@) =~= seq![m@] + movie_views(ms@.drop_first()));
                        }
                        Option::Some((ms, k))
                    },
                    Option::None => Option::None,
                }
            },
            Option::None => Option::None,
        }
    } else {
        let ms: Vec<StoredMovie> = Vec::new();
        proof {
            assert(movie_views(ms@) =~= Seq::<MovieView>::empty());
        }
        Option::Some((ms, i))
    }
}

/// Reads a shortlist array.
fn parse_movies(t: &Vec<char>, i: usize) -> (r: Option<(Vec<StoredMovie>, usize)>)
    requires
        i <= t@.len(),
    ensures
        match r {
            Option::Some((ms, j)) => p_movies(t@, i as int) == Option::Some(
                (movie_views(ms@), j as int),
            ) && i < j <= t@.len(),
            Option::None => p_movies(t@, i as int) is None,
        },
{
    if i < t.len() && i + 1 < t.len() && t[i] == '[' {
        if t[i + 1] == ']' {
            let ms: Vec<StoredMovie> = Vec::new();
            proof {
                assert(movie_views(ms@) =~= Seq::<MovieView>::empty());
            }
            Option::Some((ms, i + 2))
        } else {
            match parse_movie(t, i + 1) {
                Option::Some((m, j)) => match parse_movies_rest(t, j) {
                    Option::Some((mut ms, k)) => match expect_lit(t, k, "]") {
                        Option::Some(e) => {
                            ms.insert(0, m);
                            proof {
                                assert(movie_views(ms@) =~= seq![m@] + movie_views(
                                    ms@.drop_first(),
                                ));
                            }
                            Option::Some((ms, e))
                        },
                        Option::None => Option::None,
                    },
                    Option::None => Option::None,
                },
                Option::None => Option::None,
            }
        }
    } else {
        Option::None
    }
}

/// Reads one conversation member.
fn parse_chat(t: &Vec<char>, i: usize) -> (r: Option<(ChatList, usize)>)
    requires
        i <= t@.len(),
    ensures
        match r {
            Option::Some((c, j)) => p_chat(t@, i as int) == Option::Some((c@, j as int)) && i < j
                <= t@.len(),
            Option::None => p_chat(t@, i as int) is None,
        },
{
    let j1 = match expect_lit(t, i, "\"") {
        Option::Some(j) => j,
        Option::None => {
            return Option::None;
        },
    };
    let (cid, j2) = match parse_i64_at(t, j1) {
        Option::Some(p) => p,
        Option::None => {
            return Option::None;
        },
    };
    let j3 = match expect_lit(t, j2, "\":") {
        Option::Some(j) => j,
        Option::None => {
            return Option::None;
        },
    };
    let (ms, j4) = match parse_movies(t, j3) {
        Option::Some(p) => p,
        Option::None => {
            return Option::None;
        },
    };
    Option::Some((ChatList { chat_id: cid, movies: ms }, j4))
}

/// Reads the later conversations.
fn parse_chats_rest(t: &Vec<char>, i: usize) -> (r: Option<(Vec<ChatList>, usize)>)
    requires
        i <= t@.len(),
    ensures
        match r {
            Option::Some((cs, j)) => p_chats_rest(t@, i as int) == Option::Some(
                (cs@.map_values(|c: ChatList| c@), j as int),
            ) && i <= j <= t@.len(),
            Option::None => p_chats_rest(t@, i as int) is None,
        },
    decreases t@.len() - i as int,
{
    if i < t.len() && t[i] == ',' {
        match parse_chat(t, i + 1) {
            Option::Some((c, j)) => {
                match parse_chats_rest(t, j) {
                    Option::Some((mut cs, k)) => {
                        cs.insert(0, c);
                        proof {
                            assert(cs@.map_values(|x: ChatList| x@) =~= seq![c@]
                                + cs@.drop_first().map_values(|x: ChatList| x@));
                        }
                        Option::Some((cs, k))
                    },
                    Option::None => Option::None,
                }
            },
            Option::None => Option::None,
        }
    } else {
        let cs: Vec<ChatList> = Vec::new();
        proof {
            assert(cs@.map_values(|x: ChatList| x@) =~= Seq::<ChatView>::empty());
        }
        Option::Some((cs, i))
    }
}

/// Reads the conversation map object.
fn parse_chats(t: &Vec<char>, i: usize) -> (r: Option<(Vec<ChatList>, usize)>)
    requires
        i <= t@.len(),
    ensures
        match r {
            Option::Some((cs, j)) => p_chats(t@, i as int) == Option::Some(
                (cs@.map_values(|c: ChatList| c@), j as int),
            ) && i < j <= t@.len(),
            Option::None => p_chats(t@, i as int) is None,
        },
{
    if i < t.len() && i + 1 < t.len() && t[i] == '{' {
        if t[i + 1] == '}' {
            let cs: Vec<ChatList> = Vec::new();
            proof {
                assert(cs@.map_values(|x: ChatList| x@) =~= Seq::<ChatView>::empty());
            }
            Option::Some((cs, i + 2))
        } else {
            match parse_chat(t, i + 1) {
                Option::Some((c, j)) => match parse_chats_rest(t, j) {
                    Option::Some((mut cs, k)) => match expect_lit(t, k, "}") {
                        Option::Some(e) => {
                            cs.insert(0, c);
                            proof {
                                assert(cs@.map_values(|x: ChatList| x@) =~= seq![c@]
                                    + cs@.drop_first().map_values(|x: ChatList| x@));
                            }
                            Option::Some((cs, e))
                        },
                        Option::None => Option::None,
                    },
                    Option::None => Option::None,
                },
                Option::None => Option::None,
            }
        }
    } else {
        Option::None
    }
}

impl Document {
    /// Reads a snapshot text back into a document, accepting exactly
    /// the canonical form the encoder writes.
    pub fn decode(text: &str) -> (r: Option<Document>)
        ensures
            match r {
                Option::Some(d) => p_doc(text@) == Option::Some(d@),
                Option::None => p_doc(text@) is None,
            },
    {
        let t = crate::flow::chars_of(text);
        let j1 = match expect_lit(&t, 0, "{\"version\":") {
            Option::Some(j) => j,
            Option::None => {
                return Option::None;
            },
        };
        let (v, j2) = match parse_u64_at(&t, j1) {
            Option::Some(p) => p,
            Option::None => {
                return Option::None;
            },
        };
        if v > 4294967295u64 {
            return Option::None;
        }
        let j3 = match expect_lit(&t, j2, ",\"chats\":") {
            Option::Some(j) => j,
            Option::None => {
                return Option::None;
            },
        };
        let (cs, j4) = match parse_chats(&t, j3) {
            Option::Some(p) => p,
            Option::None => {
                return Option::None;
            },
        };
        let e = match expect_lit(&t, j4, "}") {
            Option::Some(j) => j,
            Option::None => {
                return Option::None;
            },
        };
        if e != t.len() {
            return Option::None;
        }
        Option::Some(Document { version: v as u32, chats: cs })
    }

    /// Startup loading: nothing on disk, a text that does not parse, or
    /// a parsed document that breaks the invariant all yield a fresh
    /// empty document; a parsed document is upgraded from a legacy zero
    /// version marker.
    pub fn load_from_text(text: Option<&str>) -> (r: Document)
        ensures
            r.wf(),
            match text {
                Option::None => r@.version == 1 && r@.chats.len() == 0,
                Option::Some(s) => match p_doc(s@) {
                    Option::None => r@.version == 1 && r@.chats.len() == 0,
                    Option::Some(dv) => if crate::store::doc_wf(dv) {
                        r@.chats == dv.chats && r@.version == (if dv.version == 0 {
                            1u32
                        } else {
                            dv.version
                        })
                    } else {
                        r@.version == 1 && r@.chats.len() == 0
                    },
                },
            },
    {
        match text {
            Option::None => Document::recover(Option::None),
            Option::Some(s) => Document::recover(Document::decode(s)),
        }
    }
}

} // verus!
