//! The decisions behind the line editor of the read-eval-print loop: how
//! open a line's loops are, what to complete, how to colour a line, and
//! whether a line is ready to run.
use vstd::prelude::*;
use crate::interpreters::objects::depth_after;
use crate::text::{chars_of, push_char, push_str, string_of};

verus! {

/// The helper that the line editor asks.
pub struct BrainfuckReplHelper;

/// The completer of the line editor.
pub struct BrainfuckReplCompleter;

/// The highlighter of the line editor.
pub struct BrainfuckReplHighlighter;

/// The validator of the line editor.
pub struct BrainfuckReplValidator;

/// Every running count of `[` minus `]` over the prefixes of `s` fits an
/// `i32`.
pub open spec fn balance_fits_i32(s: Seq<char>) -> bool {
    forall|n: int| 0 <= n <= s.len() ==> i32::MIN <= #[trigger] depth_after(s, n) <= i32::MAX
}

impl BrainfuckReplHelper {
    /// How many loops a line leaves open: the number of `[` minus the number
    /// of `]` (negative when more are closed than opened).
    pub fn completeness(prog: &str) -> (r: i32)
        requires
            balance_fits_i32(prog@),
        ensures
            r == depth_after(prog@, prog@.len() as int),
    {
        let chars = chars_of(prog);
        let mut acc: i32 = 0;
        let mut i: usize = 0;
        while i < chars.len()
            invariant
                chars@ == prog@,
                balance_fits_i32(prog@),
                i <= chars@.len(),
                acc == depth_after(prog@, i as int),
            decreases chars@.len() - i,
        {
            let c = chars[i];
            proof {
                assert(i32::MIN <= depth_after(prog@, i + 1) <= i32::MAX);
            }
            if c == '[' {
                acc = acc + 1;
            } else if c == ']' {
                acc = acc - 1;
            }
            i = i + 1;
        }
        acc
    }

    /// Whether every running count of a line fits an `i32` (see
    /// [`balance_fits_i32`]), so that [`BrainfuckReplHelper::completeness`]
    /// can count it.
    pub fn completeness_fits(prog: &str) -> (b: bool)
        ensures
            b == balance_fits_i32(prog@),
    {
        let chars = chars_of(prog);
        let mut acc: i64 = 0;
        let mut i: usize = 0;
        while i < chars.len()
            invariant
                chars@ == prog@,
                i <= chars@.len(),
                acc == depth_after(prog@, i as int),
                forall|n: int| 0 <= n <= i ==> i32::MIN <= #[trigger] depth_after(prog@, n) <= i32::MAX,
            decreases chars@.len() - i,
        {
            let c = chars[i];
            if c == '[' {
                acc = acc + 1;
            } else if c == ']' {
                acc = acc - 1;
            }
            i = i + 1;
            if acc > 2147483647i64 || acc < -2147483648i64 {
                assert(!(i32::MIN <= depth_after(prog@, i as int) <= i32::MAX));
                return false;
            }
        }
        true
    }
}

/// `n` closing brackets.
pub open spec fn closing(n: nat) -> Seq<char> {
    Seq::new(n, |i: int| ']')
}

/// The counts of a prefix do not depend on what follows it.
proof fn lemma_counts_of_prefix(a: Seq<char>, b: Seq<char>, n: int)
    requires
        0 <= n <= a.len(),
    ensures
        depth_after(a + b, n) == depth_after(a, n),
    decreases n,
{
    if n > 0 {
        lemma_counts_of_prefix(a, b, n - 1);
        assert((a + b)[n - 1] == a[n - 1]);
    }
}

/// Appending the completion candidate closes every loop the line left open:
/// the completed line is balanced.
pub proof fn lemma_candidate_closes(line: Seq<char>)
    requires
        depth_after(line, line.len() as int) > 0,
    ensures
        ({
            let full = line + closing(depth_after(line, line.len() as int) as nat);
            depth_after(full, full.len() as int) == 0
        }),
{
    let d = depth_after(line, line.len() as int);
    let full = line + closing(d as nat);
    lemma_counts_of_prefix(line, closing(d as nat), line.len() as int);
    lemma_closing_depth(line, d as nat, d);
}

/// Each closing bracket appended takes one more loop off the depth.
proof fn lemma_closing_depth(line: Seq<char>, n: nat, j: int)
    requires
        0 <= j <= n,
    ensures
        depth_after(line + closing(n), line.len() + j) == depth_after(line, line.len() as int) - j,
    decreases j,
{
    let full = line + closing(n);
    if j == 0 {
        lemma_counts_of_prefix(line, closing(n), line.len() as int);
    } else {
        lemma_closing_depth(line, n, j - 1);
        assert(full[line.len() + j - 1] == ']');
    }
}

impl BrainfuckReplCompleter {
    /// The completions the line offers before the history is searched: the
    /// closing brackets for its open loops when it leaves some open, none
    /// otherwise.
    pub fn candidates(line: &str) -> (c: Vec<String>)
        requires
            balance_fits_i32(line@),
        ensures
            depth_after(line@, line@.len() as int) > 0 ==> c@.len() == 1 && c@[0]@ == closing(
                depth_after(line@, line@.len() as int) as nat,
            ),
            depth_after(line@, line@.len() as int) <= 0 ==> c@.len() == 0,
    {
        let completeness = BrainfuckReplHelper::completeness(line);
        let mut candidates: Vec<String> = Vec::new();
        if completeness > 0 {
            let mut s = String::new();
            let mut i: i32 = 0;
            while i < completeness
                invariant
                    0 <= i <= completeness,
                    s@ == closing(i as nat),
                decreases completeness - i,
            {
                push_char(&mut s, ']');
                i = i + 1;
                assert(s@ =~= closing(i as nat));
            }
            candidates.push(s);
        }
        candidates
    }
}

/// The colour code that starts a character of the program.
pub open spec fn colour_of(c: char) -> Seq<char> {
    if c == '[' || c == ']' {
        "\x1b[96m"@
    } else if c == '+' {
        "\x1b[92m"@
    } else if c == '-' {
        "\x1b[91m"@
    } else if c == '<' {
        "\x1b[94m"@
    } else if c == '>' {
        "\x1b[33m"@
    } else {
        Seq::empty()
    }
}

/// A line with each character in its colour: the colour code, the
/// character, then the code that restores the default colour.
pub open spec fn highlighted(s: Seq<char>) -> Seq<char>
    decreases s.len(),
{
    if s.len() == 0 {
        Seq::empty()
    } else {
        highlighted(s.drop_last()) + colour_of(s.last()) + seq![s.last()] + "\x1b[39m"@
    }
}

/// The characters that are highlighted as the cursor passes them.
pub open spec fn is_highlighted_char(c: char) -> bool {
    c == '[' || c == ']' || c == '+' || c == '-' || c == '<' || c == '>'
}

fn colour_code(c: char) -> (code: &'static str)
    ensures
        code@ == colour_of(c),
{
    if c == '[' || c == ']' {
        "\x1b[96m"
    } else if c == '+' {
        "\x1b[92m"
    } else if c == '-' {
        "\x1b[91m"
    } else if c == '<' {
        "\x1b[94m"
    } else if c == '>' {
        "\x1b[33m"
    } else {
        proof {
            reveal_strlit("");
        }
        ""
    }
}

/// Highlighting a line one character longer adds that character in its
/// colour, then the code that restores the default colour: brackets bright
/// cyan (`96`), `+` bright green (`92`), `-` bright red (`91`), `<` bright
/// blue (`94`), `>` yellow (`33`), any other character uncoloured.
pub proof fn lemma_highlight_colours(s: Seq<char>, c: char)
    ensures
        ({
            let h = highlighted(s.push(c));
            let tail = seq![c] + "\x1b[39m"@;
            &&& (c == '[' || c == ']') ==> h == highlighted(s) + "\x1b[96m"@ + tail
            &&& c == '+' ==> h == highlighted(s) + "\x1b[92m"@ + tail
            &&& c == '-' ==> h == highlighted(s) + "\x1b[91m"@ + tail
            &&& c == '<' ==> h == highlighted(s) + "\x1b[94m"@ + tail
            &&& c == '>' ==> h == highlighted(s) + "\x1b[33m"@ + tail
            &&& !is_highlighted_char(c) ==> h == highlighted(s) + tail
        }),
{
    let t = s.push(c);
    assert(t.drop_last() =~= s);
    assert(t.last() == c);
    let h = highlighted(t);
    assert(h == highlighted(s) + colour_of(c) + seq![c] + "\x1b[39m"@);
    assert(highlighted(s) + colour_of(c) + seq![c] + "\x1b[39m"@ =~= highlighted(s) + colour_of(c) + (
    seq![c] + "\x1b[39m"@));
    if !is_highlighted_char(c) {
        assert(highlighted(s) + Seq::<char>::empty() =~= highlighted(s));
    }
}

/// Commands of different kinds are told apart by colour: the brackets, `+`,
/// `-`, `<` and `>` each start with a colour code of their own, and other
/// characters have none.
pub proof fn lemma_colours_differ(a: char, b: char)
    requires
        is_highlighted_char(a),
        is_highlighted_char(b),
        a != b,
        !((a == '[' || a == ']') && (b == '[' || b == ']')),
    ensures
        colour_of(a) != colour_of(b),
        colour_of(a).len() > 0,
{
    reveal_strlit("\x1b[96m");
    reveal_strlit("\x1b[92m");
    reveal_strlit("\x1b[91m");
    reveal_strlit("\x1b[94m");
    reveal_strlit("\x1b[33m");
    let x = colour_of(a);
    let y = colour_of(b);
    assert(x[2] != y[2] || x[3] != y[3]);
}

/// The index just past the first `m` at or after `j` (the length when there
/// is none): where an escape code that is still open at `j` ends.
pub open spec fn code_end(s: Seq<char>, j: int) -> int
    decreases s.len() - j,
{
    if j >= s.len() {
        s.len() as int
    } else if s[j] == 'm' {
        j + 1
    } else {
        code_end(s, j + 1)
    }
}

/// An escape code that is open at `j` ends at or after `j`, and inside the
/// text.
pub proof fn lemma_code_end_bounds(s: Seq<char>, j: int)
    requires
        0 <= j <= s.len(),
    ensures
        j <= code_end(s, j) <= s.len(),
    decreases s.len() - j,
{
    if j < s.len() && s[j] != 'm' {
        lemma_code_end_bounds(s, j + 1);
    }
}

/// A text with every escape code deleted: an escape character and what
/// follows it up to and including the next `m` are dropped, every other
/// character is kept.
pub open spec fn unescape(s: Seq<char>) -> Seq<char>
    decreases s.len(),
{
    if s.len() == 0 {
        Seq::empty()
    } else if s[0] == '\x1b' {
        proof {
            lemma_code_end_bounds(s, 1);
        }
        unescape(s.skip(code_end(s, 1)))
    } else {
        seq![s[0]] + unescape(s.drop_first())
    }
}

/// An escape code: the escape character, then characters other than `m`,
/// then `m`.
pub open spec fn is_code(x: Seq<char>) -> bool {
    &&& x.len() >= 2
    &&& x[0] == '\x1b'
    &&& x.last() == 'm'
    &&& forall|i: int| 1 <= i < x.len() - 1 ==> x[i] != 'm'
}

proof fn lemma_code_end_in_code(x: Seq<char>, b: Seq<char>, j: int)
    requires
        is_code(x),
        1 <= j < x.len(),
    ensures
        code_end(x + b, j) == x.len(),
    decreases x.len() - j,
{
    assert((x + b)[j] == x[j]);
    if j < x.len() - 1 {
        lemma_code_end_in_code(x, b, j + 1);
    }
}

/// An escape code in front of a text is deleted whole.
proof fn lemma_unescape_code(x: Seq<char>, b: Seq<char>)
    requires
        is_code(x),
    ensures
        unescape(x + b) == unescape(b),
{
    lemma_code_end_in_code(x, b, 1);
    assert((x + b).skip(x.len() as int) =~= b);
}

/// A character other than the escape character in front of a text is kept.
proof fn lemma_unescape_char(c: char, b: Seq<char>)
    requires
        c != '\x1b',
    ensures
        unescape(seq![c] + b) == seq![c] + unescape(b),
{
    assert((seq![c] + b).drop_first() =~= b);
}

/// The colour that starts a character is an escape code, or nothing.
proof fn lemma_colour_is_code(c: char)
    ensures
        colour_of(c).len() == 0 || is_code(colour_of(c)),
        is_code("\x1b[39m"@),
{
    reveal_strlit("\x1b[96m");
    reveal_strlit("\x1b[92m");
    reveal_strlit("\x1b[91m");
    reveal_strlit("\x1b[94m");
    reveal_strlit("\x1b[33m");
    reveal_strlit("\x1b[39m");
}

/// Deleting the escape codes from a highlighted line followed by any text
/// gives the line followed by that text with its escape codes deleted.
proof fn lemma_unescape_highlighted(line: Seq<char>, b: Seq<char>)
    requires
        forall|i: int| 0 <= i < line.len() ==> line[i] != '\x1b',
    ensures
        unescape(highlighted(line) + b) == line + unescape(b),
    decreases line.len(),
{
    if line.len() == 0 {
        assert(highlighted(line) + b =~= b);
        assert(line + unescape(b) =~= unescape(b));
    } else {
        let c = line.last();
        let front = line.drop_last();
        let reset = "\x1b[39m"@;
        let tail = colour_of(c) + (seq![c] + (reset + b));
        lemma_colour_is_code(c);
        lemma_unescape_code(reset, b);
        lemma_unescape_char(c, reset + b);
        if colour_of(c).len() == 0 {
            assert(tail =~= seq![c] + (reset + b));
        } else {
            lemma_unescape_code(colour_of(c), seq![c] + (reset + b));
        }
        assert(unescape(tail) == seq![c] + unescape(b));
        lemma_unescape_highlighted(front, tail);
        assert(highlighted(line) + b =~= highlighted(front) + tail);
        assert(front + (seq![c] + unescape(b)) =~= line + unescape(b));
    }
}

/// Deleting every escape code from a highlighted line gives the line back,
/// for a line that holds no escape character of its own.
pub proof fn lemma_highlight_unescapes(line: Seq<char>)
    requires
        forall|i: int| 0 <= i < line.len() ==> line[i] != '\x1b',
    ensures
        unescape(highlighted(line)) == line,
{
    lemma_unescape_highlighted(line, Seq::empty());
    assert(highlighted(line) + Seq::<char>::empty() =~= highlighted(line));
    assert(unescape(Seq::<char>::empty()) =~= Seq::<char>::empty());
    assert(line + Seq::<char>::empty() =~= line);
}

impl BrainfuckReplHighlighter {
    /// Colours a line: brackets bright cyan, `+` bright green, `-` bright
    /// red, `<` bright blue, `>` yellow, others unchanged; each character is
    /// followed by the code that restores the default colour.
    pub fn highlight(line: &str) -> (out: String)
        ensures
            out@ == highlighted(line@),
    {
        let chars = chars_of(line);
        let mut output = String::new();
        let mut i: usize = 0;
        while i < chars.len()
            invariant
                chars@ == line@,
                i <= chars@.len(),
                output@ == highlighted(line@.take(i as int)),
            decreases chars@.len() - i,
        {
            let c = chars[i];
            push_str(&mut output, colour_code(c));
            push_char(&mut output, c);
            push_str(&mut output, "\x1b[39m");
            proof {
                let t = line@.take(i + 1);
                assert(t.drop_last() =~= line@.take(i as int));
                assert(t.last() == c);
            }
            i = i + 1;
        }
        assert(line@.take(chars@.len() as int) =~= line@);
        output
    }

    /// The prompt in bright magenta.
    pub fn highlight_prompt() -> (p: &'static str)
        ensures
            p@ == "\x1b[95m>>>\x1b[0m "@,
    {
        "\x1b[95m>>>\x1b[0m "
    }

    /// A hint, dimmed.
    pub fn highlight_hint(hint: &str) -> (out: String)
        ensures
            out@ == "\x1b[2m"@ + hint@ + "\x1b[0m"@,
    {
        let mut out = string_of("\x1b[2m");
        push_str(&mut out, hint);
        push_str(&mut out, "\x1b[0m");
        out
    }

    /// Whether the line has to be highlighted again at cursor position
    /// `pos`: the character just before the cursor (the first one when the
    /// cursor is at 0) is a bracket, `+`, `-`, `<` or `>`.
    pub fn highlight_char(line: &str, pos: usize) -> (b: bool)
        ensures
            ({
                let k = if pos == 0 {
                    0
                } else {
                    pos - 1
                };
                b == (k < line@.len() && is_highlighted_char(line@[k]))
            }),
    {
        let chars = chars_of(line);
        let k = pos.saturating_sub(1);
        if k < chars.len() {
            let c = chars[k];
            c == '[' || c == ']' || c == '+' || c == '-' || c == '<' || c == '>'
        } else {
            false
        }
    }
}

/// Whether a line is ready to run.
#[derive(Debug, PartialEq, Eq)]
pub enum LineValidity {
    /// Loops are left open: the editor asks for more input.
    Incomplete,
    /// More loops are closed than opened, with this message.
    Invalid(String),
    /// The line is ready.
    Valid,
}

/// Some prefix of the line closes more loops than it opened: a `]` has no
/// `[` to close.
pub open spec fn closes_unopened(s: Seq<char>) -> bool {
    exists|n: int| 0 <= n <= s.len() && #[trigger] depth_after(s, n) < 0
}

impl BrainfuckReplValidator {
    /// Judges a line: a `]` that closes no `[` before it makes it invalid
    /// with `"Unmatched ] character"`; otherwise open loops make it
    /// incomplete, and a balanced line is valid.
    pub fn verdict(line: &str) -> (v: LineValidity)
        requires
            balance_fits_i32(line@),
        ensures
            closes_unopened(line@) ==> (v matches LineValidity::Invalid(m) && m@ == "Unmatched ] character"@),
            !closes_unopened(line@) && depth_after(line@, line@.len() as int) > 0 ==> v
                == LineValidity::Incomplete,
            !closes_unopened(line@) && depth_after(line@, line@.len() as int) == 0 ==> v == LineValidity::Valid,
    {
        let chars = chars_of(line);
        let mut acc: i32 = 0;
        let mut i: usize = 0;
        while i < chars.len()
            invariant
                chars@ == line@,
                balance_fits_i32(line@),
                i <= chars@.len(),
                acc == depth_after(line@, i as int),
                forall|n: int| 0 <= n <= i ==> #[trigger] depth_after(line@, n) >= 0,
            decreases chars@.len() - i,
        {
            let c = chars[i];
            proof {
                assert(i32::MIN <= depth_after(line@, i + 1) <= i32::MAX);
            }
            if c == '[' {
                acc = acc + 1;
            } else if c == ']' {
                acc = acc - 1;
            }
            i = i + 1;
            if acc < 0 {
                assert(depth_after(line@, i as int) < 0);
                return LineValidity::Invalid(string_of("Unmatched ] character"));
            }
        }
        if acc > 0 {
            LineValidity::Incomplete
        } else {
            LineValidity::Valid
        }
    }
}

} // verus!
