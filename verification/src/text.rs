//! Caption and view-model text: HTML escaping for the transport's
//! markup, clipping long synopses, joining blocks under a size hint,
//! and chunking a long message to the transport's size limit.

use vstd::prelude::*;
use vstd::string::StrSliceExecFns;
use vstd::string::StringExecFns;

verus! {

/// Relies on std's String::push: appends exactly one character.
#[verifier::external_body]
pub fn push_char(s: &mut String, c: char)
    ensures
        final(s)@ == old(s)@.push(c),
{
    s.push(c)
}

/// How one character is escaped for the transport's HTML-flavoured
/// markup.
pub open spec fn spec_escape_char(c: char) -> Seq<char> {
    if c == '&' {
        "&amp;"@
    } else if c == '<' {
        "&lt;"@
    } else if c == '>' {
        "&gt;"@
    } else {
        seq![c]
    }
}

/// The whole string escaped, character by character.
pub open spec fn spec_html_escape(s: Seq<char>) -> Seq<char>
    decreases s.len(),
{
    if s.len() == 0 {
        Seq::empty()
    } else {
        spec_escape_char(s[0]) + spec_html_escape(s.drop_first())
    }
}

/// Escaping distributes over appending one character.
proof fn lemma_escape_snoc(s: Seq<char>, c: char)
    ensures
        spec_html_escape(s.push(c)) == spec_html_escape(s) + spec_escape_char(c),
    decreases s.len(),
{
    if s.len() == 0 {
        assert(s.push(c)[0] == c);
        assert(s.push(c).drop_first() =~= Seq::<char>::empty());
        assert(spec_html_escape(Seq::<char>::empty()) == Seq::<char>::empty());
        assert(spec_html_escape(s.push(c)) =~= spec_html_escape(s) + spec_escape_char(c));
    } else {
        assert(s.push(c)[0] == s[0]);
        assert(s.push(c).drop_first() =~= s.drop_first().push(c));
        lemma_escape_snoc(s.drop_first(), c);
        assert(spec_html_escape(s.push(c)) =~= spec_html_escape(s) + spec_escape_char(c));
    }
}

/// Escapes the markup-significant characters.
pub fn html_escape(s: &str) -> (r: String)
    ensures
        r@ == spec_html_escape(s@),
{
    let n = s.unicode_len();
    let mut out = String::new();
    let mut i: usize = 0;
    proof {
        assert(s@.take(0) =~= Seq::<char>::empty());
    }
    while i < n
        invariant
            n == s@.len(),
            i <= n,
            out@ == spec_html_escape(s@.take(i as int)),
        decreases n - i,
    {
        let c = s.get_char(i);
        if c == '&' {
            out.append("&amp;");
        } else if c == '<' {
            out.append("&lt;");
        } else if c == '>' {
            out.append("&gt;");
        } else {
            push_char(&mut out, c);
            proof {
                assert(out@ =~= spec_html_escape(s@.take(i as int)) + spec_escape_char(c));
            }
        }
        proof {
            assert(s@.take(i as int).push(s@[i as int]) =~= s@.take(i as int + 1));
            lemma_escape_snoc(s@.take(i as int), s@[i as int]);
        }
        i += 1;
    }
    proof {
        assert(s@.take(n as int) =~= s@);
    }
    out
}

/// A string cut to at most `max` characters, with an ellipsis mark
/// appended when something was cut.
pub open spec fn spec_clip(s: Seq<char>, max: int) -> Seq<char> {
    if s.len() <= max {
        s
    } else {
        s.take(max).push('…')
    }
}

/// Clips a string to at most `max` characters.
pub fn clip(s: &str, max: usize) -> (r: String)
    ensures
        r@ == spec_clip(s@, max as int),
{
    let n = s.unicode_len();
    if n <= max {
        s.to_owned()
    } else {
        let mut out = String::from_str(s.substring_char(0, max));
        push_char(&mut out, '…');
        proof {
            assert(out@ =~= spec_clip(s@, max as int));
        }
        out
    }
}

/// The message split into chunks of at most `max` characters: full
/// chunks of exactly `max`, and whatever is left as the final chunk.
pub open spec fn spec_chunks(s: Seq<char>, max: int) -> Seq<Seq<char>>
    decreases s.len(),
{
    if max <= 0 {
        Seq::empty()
    } else if s.len() <= max {
        seq![s]
    } else {
        seq![s.take(max)] + spec_chunks(s.skip(max), max)
    }
}

/// The views of a sequence of strings.
pub open spec fn string_views(ts: Seq<String>) -> Seq<Seq<char>> {
    ts.map_values(|t: String| t@)
}

/// Splits a message into chunks of at most `max` characters each.
pub fn split_by_chars(s: &str, max: usize) -> (r: Vec<String>)
    requires
        max >= 1,
    ensures
        string_views(r@) == spec_chunks(s@, max as int),
{
    let n = s.unicode_len();
    let mut out: Vec<String> = Vec::new();
    let mut pos: usize = 0;
    proof {
        assert(s@.skip(0) =~= s@);
        assert(string_views(out@) =~= Seq::<Seq<char>>::empty());
    }
    while n - pos > max
        invariant
            n == s@.len(),
            pos <= n,
            max >= 1,
            string_views(out@) + spec_chunks(s@.skip(pos as int), max as int) == spec_chunks(
                s@,
                max as int,
            ),
        decreases n - pos,
    {
        let chunk = String::from_str(s.substring_char(pos, pos + max));
        out.push(chunk);
        proof {
            assert(s@.skip(pos as int).take(max as int) =~= s@.subrange(
                pos as int,
                pos as int + max as int,
            ));
            assert(s@.skip(pos as int).skip(max as int) =~= s@.skip(pos as int + max as int));
            assert(string_views(out@) =~= string_views(out@.drop_last()) + seq![
                s@.subrange(pos as int, pos as int + max as int),
            ]);
            assert(string_views(out@) + spec_chunks(s@.skip(pos as int + max as int), max as int)
                =~= spec_chunks(s@, max as int));
        }
        pos += max;
    }
    let last = String::from_str(s.substring_char(pos, n));
    out.push(last);
    proof {
        assert(s@.subrange(pos as int, n as int) =~= s@.skip(pos as int));
        assert(string_views(out@) =~= spec_chunks(s@, max as int));
    }
    out
}


/// Blocks joined with blank lines between them, stopping once the size
/// hint is passed: the first block that passes the hint is still
/// taken, and everything after it is dropped.
pub open spec fn spec_join_blocks(blocks: Seq<Seq<char>>, limit: int, acc: Seq<char>) -> Seq<char>
    decreases blocks.len(),
{
    if blocks.len() == 0 {
        acc
    } else {
        let piece = if acc.len() == 0 {
            blocks[0]
        } else {
            "\n\n"@ + blocks[0]
        };
        if acc.len() + piece.len() > limit {
            acc + piece
        } else {
            spec_join_blocks(blocks.drop_first(), limit, acc + piece)
        }
    }
}

/// Joins blocks under the size hint, starting from the given index
/// with what is already assembled.
fn join_blocks_from(blocks: &Vec<String>, idx: usize, limit: usize, acc: String) -> (r: String)
    requires
        idx <= blocks@.len(),
    ensures
        r@ == spec_join_blocks(string_views(blocks@).skip(idx as int), limit as int, acc@),
    decreases blocks@.len() - idx as int,
{
    let ghost rest = string_views(blocks@).skip(idx as int);
    if idx == blocks.len() {
        proof {
            assert(rest.len() == 0);
        }
        acc
    } else {
        proof {
            assert(rest[0] == blocks@[idx as int]@);
            assert(rest.drop_first() =~= string_views(blocks@).skip(idx as int + 1));
        }
        let acc_len = acc.as_str().unicode_len();
        let mut piece: String;
        if acc_len == 0 {
            piece = blocks[idx].clone();
        } else {
            piece = String::from_str("\n\n");
            piece.append(blocks[idx].as_str());
        }
        let piece_len = piece.as_str().unicode_len();
        let over = piece_len > limit || acc_len > limit - piece_len;
        let mut joined = acc;
        joined.append(piece.as_str());
        if over {
            joined
        } else {
            join_blocks_from(blocks, idx + 1, limit, joined)
        }
    }
}

/// Joins blocks with blank lines, stopping once the size hint is
/// passed; the block that passes it is still taken, so the transport
/// layer's chunking has the final word.
pub fn join_blocks(blocks: Vec<String>, limit_hint: usize) -> (r: String)
    ensures
        r@ == spec_join_blocks(string_views(blocks@), limit_hint as int, Seq::<char>::empty()),
{
    proof {
        assert(string_views(blocks@).skip(0) =~= string_views(blocks@));
    }
    join_blocks_from(&blocks, 0, limit_hint, String::new())
}


/// Whether a response content type names an image.
pub open spec fn spec_is_image_content_type(s: Seq<char>) -> bool {
    s.len() >= 6 && s.take(6) == "image/"@
}

/// Decides whether a fetched body's content type names an image; a
/// best-effort image fetch degrades silently to text when it does not.
pub fn is_image_content_type(ct: &str) -> (r: bool)
    ensures
        r == spec_is_image_content_type(ct@),
{
    let n = ct.unicode_len();
    if n < 6 {
        return false;
    }
    let head = String::from_str(ct.substring_char(0, 6));
    let want = String::from_str("image/");
    head == want
}

} // verus!
