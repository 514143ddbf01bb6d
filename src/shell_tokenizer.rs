//! Splits a command line into words as a POSIX shell would, up to the cursor.
use vstd::prelude::*;
use vstd::utf8::{decode_utf8, encode_utf8, is_char_boundary, encode_utf8_decode_utf8};
use crate::machine_state::strs;

verus! {

/// Which quotes the scanner is inside of.
#[derive(PartialEq, Eq, Structural, Clone, Copy)]
pub enum Quote {
    Unquoted,
    Single,
    Double,
}

/// The scanner's state after some prefix of the line.
pub struct Scan {
    /// Words that ended before this point.
    pub words: Seq<Seq<char>>,
    /// The word being read.
    pub cur: Seq<char>,
    /// Whether a word has begun (an empty quoted word counts).
    pub in_word: bool,
    pub quote: Quote,
    /// Whether the last character was an unconsumed backslash.
    pub escaped: bool,
}

/// Why a line could not be split.
#[derive(Debug, PartialEq, Eq, Structural, Clone, Copy)]
pub enum TokenizeError {
    /// The cursor offset lies past the end of the line or inside a character.
    OffsetOutOfRange,
    /// The line ends at the cursor in a backslash that escapes nothing yet.
    DanglingEscape,
    /// No complete word (the command) stands before the cursor.
    MissingCommand,
}

/// Word separators outside quotes.
pub open spec fn is_blank(c: char) -> bool {
    c == ' ' || c == '\t' || c == '\n'
}

/// What an escaped character adds to the word. Inside double quotes a
/// backslash escapes only `"`, `\`, `$` and `` ` ``, and is kept before any
/// other character; a backslash before a newline removes both.
pub open spec fn escaped_text(quote: Quote, c: char) -> Seq<char> {
    if c == '\n' {
        Seq::empty()
    } else if quote == Quote::Double && !(c == '"' || c == '\\' || c == '$' || c == '`') {
        seq!['\\', c]
    } else {
        seq![c]
    }
}

/// The scanner's transition on one character.
pub open spec fn scan_step(st: Scan, c: char) -> Scan {
    if st.escaped {
        Scan { cur: st.cur + escaped_text(st.quote, c), escaped: false, ..st }
    } else {
        match st.quote {
            Quote::Single => if c == '\'' {
                Scan { quote: Quote::Unquoted, ..st }
            } else {
                Scan { cur: st.cur.push(c), ..st }
            },
            Quote::Double => if c == '"' {
                Scan { quote: Quote::Unquoted, ..st }
            } else if c == '\\' {
                Scan { escaped: true, ..st }
            } else {
                Scan { cur: st.cur.push(c), ..st }
            },
            Quote::Unquoted => if is_blank(c) {
                if st.in_word {
                    Scan { words: st.words.push(st.cur), cur: Seq::empty(), in_word: false, ..st }
                } else {
                    st
                }
            } else if c == '\'' {
                Scan { quote: Quote::Single, in_word: true, ..st }
            } else if c == '"' {
                Scan { quote: Quote::Double, in_word: true, ..st }
            } else if c == '\\' {
                Scan { escaped: true, in_word: true, ..st }
            } else {
                Scan { cur: st.cur.push(c), in_word: true, ..st }
            },
        }
    }
}

/// The scanner before any character.
pub open spec fn scan_start() -> Scan {
    Scan { words: Seq::empty(), cur: Seq::empty(), in_word: false, quote: Quote::Unquoted, escaped: false }
}

/// The scanner's state after `s`, from state `st`.
pub open spec fn scan_from(st: Scan, s: Seq<char>) -> Scan
    decreases s.len(),
{
    if s.len() == 0 {
        st
    } else {
        scan_step(scan_from(st, s.drop_last()), s.last())
    }
}

/// All words of `s`, the unfinished last one included.
pub open spec fn words_of(s: Seq<char>) -> Seq<Seq<char>> {
    let sc = scan_from(scan_start(), s);
    if sc.in_word {
        sc.words.push(sc.cur)
    } else {
        sc.words
    }
}

/// The part of a path after its last `/`.
pub open spec fn basename(w: Seq<char>) -> Seq<char>
    decreases w.len(),
{
    if w.len() == 0 {
        Seq::empty()
    } else if w.last() == '/' {
        Seq::empty()
    } else {
        basename(w.drop_last()).push(w.last())
    }
}

/// The characters of `line` before byte offset `cp`.
pub open spec fn line_before(line: Seq<char>, cp: int) -> Seq<char> {
    decode_utf8(encode_utf8(line).subrange(0, cp))
}

/// The view of a split: command basename, completed arguments, last argument.
pub type SplitView = (Seq<char>, Seq<Seq<char>>, Seq<char>);

/// How the text before the cursor splits.
pub open spec fn split_prefix(s: Seq<char>) -> Result<SplitView, TokenizeError> {
    let sc = scan_from(scan_start(), s);
    if sc.escaped {
        Err(TokenizeError::DanglingEscape)
    } else if sc.words.len() == 0 {
        Err(TokenizeError::MissingCommand)
    } else {
        Ok((basename(sc.words[0]), sc.words.drop_first(), sc.cur))
    }
}

/// A split command line.
pub struct TokenizedResult {
    /// The command's name without its directory.
    pub command_basename: String,
    /// The words after the command that end before the cursor.
    pub arguments: Vec<String>,
    /// The word that the cursor is in or at the end of; empty after a blank.
    pub last_argument: String,
}

/// The part of a path after its last `/`.
pub fn basename_of(w: &str) -> (r: String)
    ensures
        r@ == basename(w@),
{
    let n = w.unicode_len();
    let mut base = String::new();
    let mut i: usize = 0;
    assert(w@.take(0) =~= Seq::<char>::empty());
    while i < n
        invariant
            n == w@.len(),
            i <= n,
            base@ == basename(w@.take(i as int)),
        decreases n - i,
    {
        assert(w@.take(i + 1).drop_last() =~= w@.take(i as int));
        assert(w@.take(i + 1).last() == w@[i as int]);
        if w.get_char(i) == '/' {
            base = String::new();
            assert(base@ =~= Seq::<char>::empty());
        } else {
            let c = w.substring_char(i, i + 1);
            assert(c@ =~= seq![w@[i as int]]);
            base.append(c);
        }
        i = i + 1;
    }
    assert(w@.take(n as int) =~= w@);
    base
}

/// The view of a split result.
pub open spec fn split_view(r: TokenizedResult) -> SplitView {
    (r.command_basename@, strs(r.arguments@), r.last_argument@)
}

/// Splits `s`, the text before the cursor (see `split_prefix`).
pub fn split_words(s: &str) -> (r: Result<TokenizedResult, TokenizeError>)
    ensures
        match split_prefix(s@) {
            Ok(v) => r matches Ok(t) && split_view(t) == v,
            Err(e) => r == Err::<TokenizedResult, TokenizeError>(e),
        },
{
    let n = s.unicode_len();
    let mut words: Vec<String> = Vec::new();
    let mut cur = String::new();
    let mut in_word = false;
    let mut quote = Quote::Unquoted;
    let mut escaped = false;
    let mut i: usize = 0;
    assert(s@.take(0) =~= Seq::<char>::empty());
    assert(strs(words@) =~= Seq::<Seq<char>>::empty());
    while i < n
        invariant
            n == s@.len(),
            i <= n,
            scan_from(scan_start(), s@.take(i as int)) == (Scan { words: strs(words@), cur: cur@, in_word, quote, escaped }),
        decreases n - i,
    {
        assert(s@.take(i + 1).drop_last() =~= s@.take(i as int));
        assert(s@.take(i + 1).last() == s@[i as int]);
        let c = s.get_char(i);
        let cs = s.substring_char(i, i + 1);
        assert(cs@ =~= seq![c]);
        let ghost old_cur = cur@;
        if escaped {
            if c == '\n' {
                assert(cur@ =~= old_cur + escaped_text(quote, c));
            } else if quote == Quote::Double && !(c == '"' || c == '\\' || c == '$' || c == '`') {
                proof {
                    reveal_strlit("\\");
                }
                cur.append("\\");
                cur.append(cs);
                assert(cur@ =~= old_cur + escaped_text(quote, c));
            } else {
                cur.append(cs);
                assert(cur@ =~= old_cur + escaped_text(quote, c));
            }
            escaped = false;
        } else {
            match quote {
                Quote::Single => {
                    if c == '\'' {
                        quote = Quote::Unquoted;
                    } else {
                        cur.append(cs);
                        assert(cur@ =~= old_cur.push(c));
                    }
                },
                Quote::Double => {
                    if c == '"' {
                        quote = Quote::Unquoted;
                    } else if c == '\\' {
                        escaped = true;
                    } else {
                        cur.append(cs);
                        assert(cur@ =~= old_cur.push(c));
                    }
                },
                Quote::Unquoted => {
                    if c == ' ' || c == '\t' || c == '\n' {
                        if in_word {
                            let ghost before = words@;
                            let ghost w = cur@;
                            let mut done = String::new();
                            std::mem::swap(&mut done, &mut cur);
                            words.push(done);
                            assert(strs(words@) =~= strs(before).push(w));
                            assert(cur@ =~= Seq::<char>::empty());
                            in_word = false;
                        }
                    } else if c == '\'' {
                        quote = Quote::Single;
                        in_word = true;
                    } else if c == '"' {
                        quote = Quote::Double;
                        in_word = true;
                    } else if c == '\\' {
                        escaped = true;
                        in_word = true;
                    } else {
                        cur.append(cs);
                        assert(cur@ =~= old_cur.push(c));
                        in_word = true;
                    }
                },
            }
        }
        i = i + 1;
    }
    assert(s@.take(n as int) =~= s@);
    if escaped {
        return Err(TokenizeError::DanglingEscape);
    }
    if words.len() == 0 {
        return Err(TokenizeError::MissingCommand);
    }
    let ghost all = words@;
    let command = words.remove(0);
    assert(strs(words@) =~= strs(all).drop_first());
    let command_basename = basename_of(command.as_str());
    Ok(TokenizedResult { command_basename, arguments: words, last_argument: cur })
}

/// Splits the command line `compline` with the cursor at byte offset
/// `comppoint`: the text after the cursor is ignored.
pub fn split_with_comppoint(compline: &str, comppoint: usize) -> (r: Result<TokenizedResult, TokenizeError>)
    ensures
        !is_char_boundary(encode_utf8(compline@), comppoint as int) ==> r == Err::<
            TokenizedResult,
            TokenizeError,
        >(TokenizeError::OffsetOutOfRange),
        is_char_boundary(encode_utf8(compline@), comppoint as int) ==> match split_prefix(
            line_before(compline@, comppoint as int),
        ) {
            Ok(v) => r matches Ok(t) && split_view(t) == v,
            Err(e) => r == Err::<TokenizedResult, TokenizeError>(e),
        },
{
    if !compline.is_char_boundary(comppoint) {
        return Err(TokenizeError::OffsetOutOfRange);
    }
    let (before, _) = compline.split_at(comppoint);
    proof {
        encode_utf8_decode_utf8(before@);
        assert(before@ == line_before(compline@, comppoint as int));
    }
    split_words(before)
}

/// Whether `c` means something to the scanner outside quotes.
pub open spec fn is_special(c: char) -> bool {
    is_blank(c) || c == '\'' || c == '"' || c == '\\'
}

/// A word that splits as itself: not empty, and with no blank, quote or backslash.
pub open spec fn is_plain_word(w: Seq<char>) -> bool {
    w.len() > 0 && forall|k: int| 0 <= k < w.len() ==> !is_special(#[trigger] w[k])
}

/// The words joined by single spaces.
pub open spec fn join_words(ws: Seq<Seq<char>>) -> Seq<char>
    decreases ws.len(),
{
    if ws.len() == 0 {
        Seq::empty()
    } else if ws.len() == 1 {
        ws[0]
    } else {
        join_words(ws.drop_last()) + seq![' '] + ws.last()
    }
}

/// Scanning `a + b` is scanning `a`, then `b`.
pub proof fn lemma_scan_concat(st: Scan, a: Seq<char>, b: Seq<char>)
    ensures
        scan_from(st, a + b) == scan_from(scan_from(st, a), b),
    decreases b.len(),
{
    if b.len() == 0 {
        assert(a + b =~= a);
    } else {
        assert((a + b).drop_last() =~= a + b.drop_last());
        assert((a + b).last() == b.last());
        lemma_scan_concat(st, a, b.drop_last());
    }
}

/// Outside quotes, characters with no meaning to the scanner go into the word.
pub proof fn lemma_scan_plain(st: Scan, w: Seq<char>)
    requires
        st.quote == Quote::Unquoted,
        !st.escaped,
        forall|k: int| 0 <= k < w.len() ==> !is_special(#[trigger] w[k]),
    ensures
        scan_from(st, w) == (Scan { cur: st.cur + w, in_word: st.in_word || w.len() > 0, ..st }),
    decreases w.len(),
{
    if w.len() == 0 {
        assert(st.cur + w =~= st.cur);
    } else {
        let d = w.drop_last();
        assert forall|k: int| 0 <= k < d.len() implies !is_special(#[trigger] d[k]) by {
            assert(d[k] == w[k]);
        }
        lemma_scan_plain(st, d);
        assert(!is_special(w[w.len() - 1]));
        assert((st.cur + d).push(w.last()) =~= st.cur + w);
    }
}

/// The scanner's state after plain words joined by spaces.
proof fn lemma_scan_joined(ws: Seq<Seq<char>>)
    requires
        ws.len() > 0,
        forall|k: int| 0 <= k < ws.len() ==> is_plain_word(#[trigger] ws[k]),
    ensures
        scan_from(scan_start(), join_words(ws)) == (Scan {
            words: ws.drop_last(),
            cur: ws.last(),
            in_word: true,
            quote: Quote::Unquoted,
            escaped: false,
        }),
    decreases ws.len(),
{
    assert(is_plain_word(ws[ws.len() - 1]));
    if ws.len() == 1 {
        lemma_scan_plain(scan_start(), ws[0]);
        assert(Seq::<char>::empty() + ws[0] =~= ws[0]);
        assert(ws.drop_last() =~= Seq::<Seq<char>>::empty());
    } else {
        let d = ws.drop_last();
        assert forall|k: int| 0 <= k < d.len() implies is_plain_word(#[trigger] d[k]) by {
            assert(d[k] == ws[k]);
        }
        lemma_scan_joined(d);
        let a = join_words(d);
        lemma_scan_concat(scan_start(), a + seq![' '], ws.last());
        lemma_scan_concat(scan_start(), a, seq![' ']);
        assert(seq![' '].drop_last() =~= Seq::<char>::empty());
        let sa = scan_from(scan_start(), a);
        assert(scan_from(sa, Seq::<char>::empty()) == sa);
        assert(seq![' '].last() == ' ');
        assert(scan_from(sa, seq![' ']) == scan_step(sa, ' '));
        assert(ws.drop_last().drop_last().push(d.last()) =~= d);
        let mid = scan_from(scan_start(), a + seq![' ']);
        assert(mid.words =~= d);
        assert(mid.cur =~= Seq::<char>::empty());
        lemma_scan_plain(mid, ws.last());
        assert(Seq::<char>::empty() + ws.last() =~= ws.last());
    }
}

/// Splitting is idempotent on plain words: joining words that hold no blank,
/// quote or backslash with single spaces, and splitting the result again,
/// gives the same words back.
pub proof fn lemma_resplit_joined(ws: Seq<Seq<char>>)
    requires
        forall|k: int| 0 <= k < ws.len() ==> is_plain_word(#[trigger] ws[k]),
    ensures
        words_of(join_words(ws)) == ws,
{
    if ws.len() > 0 {
        lemma_scan_joined(ws);
        assert(ws.drop_last().push(ws.last()) =~= ws);
    } else {
        assert(words_of(join_words(ws)) =~= ws);
    }
}

/// Token order is preserved: the completed arguments that a line splits into,
/// when each is a plain word, split back into themselves, in order, once
/// joined by single spaces.
pub proof fn lemma_token_order_preserved(line: Seq<char>, cp: int)
    requires
        split_prefix(line_before(line, cp)) is Ok,
        forall|k: int|
            0 <= k < split_prefix(line_before(line, cp)).unwrap().1.len() ==> is_plain_word(
                #[trigger] split_prefix(line_before(line, cp)).unwrap().1[k],
            ),
    ensures
        words_of(join_words(split_prefix(line_before(line, cp)).unwrap().1)) == split_prefix(
            line_before(line, cp),
        ).unwrap().1,
{
    lemma_resplit_joined(split_prefix(line_before(line, cp)).unwrap().1);
}

} // verus!
