//! Errors of the editor, their messages, and the highlighting of backtraces so that the
//! frames from the project's own sources stand out.
use vstd::prelude::*;
use colored::Colorize;

verus! {

/// An error of the editor.
#[derive(Debug)]
pub enum EdError {
    ClipboardReadFailed { err_msg: String },
    ClipboardWriteFailed { err_msg: String },
    ClipboardInitFailed { err_msg: String },
    OutOfBounds { index: usize, collection_name: String, len: usize },
    UIErrorBacktrace { msg: String },
}

/// The decimal digits of `n`.
pub open spec fn decimal(n: nat) -> Seq<char>
    decreases n,
{
    if n < 10 {
        seq![digit_char(n)]
    } else {
        decimal(n / 10) + seq![digit_char(n % 10)]
    }
}

/// The character of the decimal digit `d`.
pub open spec fn digit_char(d: nat) -> char {
    if d == 0 {
        '0'
    } else if d == 1 {
        '1'
    } else if d == 2 {
        '2'
    } else if d == 3 {
        '3'
    } else if d == 4 {
        '4'
    } else if d == 5 {
        '5'
    } else if d == 6 {
        '6'
    } else if d == 7 {
        '7'
    } else if d == 8 {
        '8'
    } else {
        '9'
    }
}

/// The one-character text of the decimal digit `d`.
fn digit_str(d: usize) -> (r: &'static str)
    requires
        d < 10,
    ensures
        r@ == seq![digit_char(d as nat)],
{
    proof {
        reveal_strlit("0");
        reveal_strlit("1");
        reveal_strlit("2");
        reveal_strlit("3");
        reveal_strlit("4");
        reveal_strlit("5");
        reveal_strlit("6");
        reveal_strlit("7");
        reveal_strlit("8");
        reveal_strlit("9");
    }
    let r = match d {
        0 => "0",
        1 => "1",
        2 => "2",
        3 => "3",
        4 => "4",
        5 => "5",
        6 => "6",
        7 => "7",
        8 => "8",
        _ => "9",
    };
    assert(r@ =~= seq![digit_char(d as nat)]);
    r
}

/// The decimal digits of `n`.
pub fn usize_to_string(n: usize) -> (r: String)
    ensures
        r@ == decimal(n as nat),
    decreases n,
{
    if n < 10 {
        String::from_str(digit_str(n))
    } else {
        let mut s = usize_to_string(n / 10);
        s.append(digit_str(n % 10));
        s
    }
}

/// The message of an error.
pub open spec fn message_spec(e: EdError) -> Seq<char> {
    match e {
        EdError::ClipboardReadFailed { err_msg } => "ClipboardReadFailed: could not get clipboard contents: "@
            + err_msg@,
        EdError::ClipboardWriteFailed { err_msg } => "ClipboardWriteFailed: could not set clipboard contents: "@
            + err_msg@,
        EdError::ClipboardInitFailed { err_msg } => "ClipboardInitFailed: could not initialize ClipboardContext: "@
            + err_msg@ + "."@,
        EdError::OutOfBounds { index, collection_name, len } => "OutOfBounds: index "@ + decimal(
            index as nat,
        ) + " was out of bounds for "@ + collection_name@ + " with length "@ + decimal(len as nat)
            + "."@,
        EdError::UIErrorBacktrace { msg } => "UIError: "@ + msg@,
    }
}

impl EdError {
    /// The message of the error.
    pub fn message(&self) -> (r: String)
        ensures
            r@ == message_spec(*self),
    {
        match self {
            EdError::ClipboardReadFailed { err_msg } => {
                let mut s = String::from_str("ClipboardReadFailed: could not get clipboard contents: ");
                s.append(err_msg.as_str());
                s
            },
            EdError::ClipboardWriteFailed { err_msg } => {
                let mut s = String::from_str("ClipboardWriteFailed: could not set clipboard contents: ");
                s.append(err_msg.as_str());
                s
            },
            EdError::ClipboardInitFailed { err_msg } => {
                let mut s = String::from_str("ClipboardInitFailed: could not initialize ClipboardContext: ");
                s.append(err_msg.as_str());
                s.append(".");
                s
            },
            EdError::OutOfBounds { index, collection_name, len } => {
                let mut s = String::from_str("OutOfBounds: index ");
                let i = usize_to_string(*index);
                s.append(i.as_str());
                s.append(" was out of bounds for ");
                s.append(collection_name.as_str());
                s.append(" with length ");
                let l = usize_to_string(*len);
                s.append(l.as_str());
                s.append(".");
                s
            },
            EdError::UIErrorBacktrace { msg } => {
                let mut s = String::from_str("UIError: ");
                s.append(msg.as_str());
                s
            },
        }
    }
}

/// Whether `needle` occurs in `hay` at `i`.
pub open spec fn occurs_at(needle: Seq<char>, hay: Seq<char>, i: int) -> bool {
    0 <= i && i + needle.len() <= hay.len() && hay.subrange(i, i + needle.len()) == needle
}

/// Whether `needle` occurs in `hay`.
pub open spec fn is_substring(needle: Seq<char>, hay: Seq<char>) -> bool {
    exists|i: int| occurs_at(needle, hay, i)
}

/// Whether `needle` occurs in `hay`.
pub fn str_contains(hay: &str, needle: &str) -> (r: bool)
    ensures
        r == is_substring(needle@, hay@),
{
    let n = hay.unicode_len();
    let m = needle.unicode_len();
    if m > n {
        assert forall|i: int| !occurs_at(needle@, hay@, i) by {}
        return false;
    }
    let mut i: usize = 0;
    while i <= n - m
        invariant
            n == hay@.len(),
            m == needle@.len(),
            m <= n,
            i <= n - m + 1,
            forall|k: int| 0 <= k < i ==> !occurs_at(needle@, hay@, k),
        decreases n - m + 1 - i,
    {
        let mut j: usize = 0;
        while j < m && hay.get_char(i + j) == needle.get_char(j)
            invariant
                n == hay@.len(),
                m == needle@.len(),
                i + m <= n,
                j <= m,
                forall|t: int| 0 <= t < j ==> hay@[i + t] == needle@[t],
            decreases m - j,
        {
            j = j + 1;
        }
        if j == m {
            assert(hay@.subrange(i as int, i + m) =~= needle@);
            assert(occurs_at(needle@, hay@, i as int));
            return true;
        }
        assert(!occurs_at(needle@, hay@, i as int)) by {
            if hay@.subrange(i as int, i + m) == needle@ {
                assert(hay@.subrange(i as int, i + m)[j as int] == hay@[i + j]);
            }
        }
        i = i + 1;
    }
    assert forall|k: int| !occurs_at(needle@, hay@, k) by {
        if 0 <= k < i {
        }
    }
    false
}

/// Whether one of `contain_slice` occurs in `main_str`.
pub fn contains_one_of(main_str: &str, contain_slice: &[&str]) -> (r: bool)
    ensures
        r == exists|i: int| 0 <= i < contain_slice@.len() && is_substring(#[trigger] contain_slice@[i]@, main_str@),
{
    let mut i: usize = 0;
    while i < contain_slice.len()
        invariant
            i <= contain_slice@.len(),
            forall|k: int| 0 <= k < i ==> !is_substring(#[trigger] contain_slice@[k]@, main_str@),
        decreases contain_slice@.len() - i,
    {
        if str_contains(main_str, contain_slice[i]) {
            return true;
        }
        i = i + 1;
    }
    false
}

/// The pieces of `s` between line breaks, as splitting at every `'\n'` gives them: one
/// more piece than there are breaks.
pub open spec fn split_lines(s: Seq<char>) -> Seq<Seq<char>>
    decreases s.len(),
{
    if s.len() == 0 {
        seq![Seq::empty()]
    } else {
        let r = split_lines(s.drop_last());
        if s.last() == '\n' {
            r.push(Seq::empty())
        } else {
            r.update(r.len() - 1, r.last().push(s.last()))
        }
    }
}

/// Splitting always gives at least one piece.
pub proof fn lemma_split_lines_nonempty(s: Seq<char>)
    ensures
        split_lines(s).len() >= 1,
    decreases s.len(),
{
    if s.len() > 0 {
        lemma_split_lines_nonempty(s.drop_last());
    }
}

/// Splits `s` at every line break.
pub fn lines_of(s: &str) -> (r: Vec<&str>)
    ensures
        r@.map_values(|l: &str| l@) == split_lines(s@),
{
    let n = s.unicode_len();
    let mut lines: Vec<&str> = Vec::new();
    let mut start: usize = 0;
    let mut i: usize = 0;
    assert(s@.subrange(0, 0) =~= Seq::<char>::empty());
    assert(lines@.map_values(|l: &str| l@).push(s@.subrange(0, 0)) =~= split_lines(s@.subrange(0, 0)));
    while i < n
        invariant
            n == s@.len(),
            start <= i <= n,
            lines@.map_values(|l: &str| l@).push(s@.subrange(start as int, i as int)) == split_lines(
                s@.subrange(0, i as int),
            ),
        decreases n - i,
    {
        let ghost prefix = s@.subrange(0, i as int + 1);
        assert(prefix.drop_last() =~= s@.subrange(0, i as int));
        assert(prefix.last() == s@[i as int]);
        proof {
            lemma_split_lines_nonempty(s@.subrange(0, i as int));
        }
        let c = s.get_char(i);
        if c == '\n' {
            let line = s.substring_char(start, i);
            lines.push(line);
            i = i + 1;
            start = i;
            assert(s@.subrange(start as int, i as int) =~= Seq::<char>::empty());
            assert(lines@.map_values(|l: &str| l@).push(s@.subrange(start as int, i as int)) =~= split_lines(
                s@.subrange(0, i as int),
            ));
        } else {
            i = i + 1;
            assert(s@.subrange(start as int, i as int) =~= s@.subrange(start as int, i - 1).push(c));
            assert(lines@.map_values(|l: &str| l@).push(s@.subrange(start as int, i as int)) =~= split_lines(
                s@.subrange(0, i as int),
            ));
        }
    }
    let last = s.substring_char(start, n);
    lines.push(last);
    assert(s@.subrange(0, n as int) =~= s@);
    assert(lines@.map_values(|l: &str| l@) =~= split_lines(s@));
    lines
}

/// Whether a backtrace line points into the project's own sources: it names a `src`
/// directory and none of the toolchain's or the package registry's directories.
pub open spec fn is_own_frame(line: Seq<char>) -> bool {
    &&& is_substring("src"@, line)
    &&& !is_substring(".cargo"@, line)
    &&& !is_substring("registry"@, line)
    &&& !is_substring(".rustup"@, line)
    &&& !is_substring("rustc"@, line)
}

/// Whether `line` is a frame of the project's own sources.
pub fn own_frame(line: &str) -> (r: bool)
    ensures
        r == is_own_frame(line@),
{
    if !str_contains(line, "src") {
        return false;
    }
    let irrelevant_src: [&str; 4] = [".cargo", "registry", ".rustup", "rustc"];
    let r = contains_one_of(line, &irrelevant_src);
    assert(irrelevant_src@[0]@ == ".cargo"@);
    assert(irrelevant_src@[1]@ == "registry"@);
    assert(irrelevant_src@[2]@ == ".rustup"@);
    assert(irrelevant_src@[3]@ == "rustc"@);
    !r
}

/// How one line of a highlighted backtrace is shown.
#[derive(Debug)]
pub struct BacktraceLine {
    pub text: String,
    /// The line is a frame of the project's own sources.
    pub highlight: bool,
    /// The next line is such a frame, so this one (its location) is marked too.
    pub before_highlight: bool,
}

/// The lines of a highlighted backtrace: every line but the last, each marked when it
/// is a frame of the project's own sources, and marked as preceding one when the next
/// line is such a frame.
pub fn backtrace_plan(backtrace: &str) -> (r: Vec<BacktraceLine>)
    ensures
        r@.len() == split_lines(backtrace@).len() - 1,
        forall|i: int|
            0 <= i < r@.len() ==> {
                let lines = split_lines(backtrace@);
                &&& (#[trigger] r@[i]).text@ == lines[i]
                &&& r@[i].highlight == is_own_frame(lines[i])
                &&& r@[i].before_highlight == is_own_frame(lines[i + 1])
            },
{
    let lines = lines_of(backtrace);
    let ghost ls = split_lines(backtrace@);
    proof {
        lemma_split_lines_nonempty(backtrace@);
    }
    assert(lines@.len() == ls.len());
    let mut r: Vec<BacktraceLine> = Vec::new();
    let mut i: usize = 0;
    while i < lines.len() - 1
        invariant
            lines@.map_values(|l: &str| l@) == ls,
            lines@.len() == ls.len(),
            ls.len() >= 1,
            i + 1 <= lines@.len(),
            r@.len() == i,
            forall|k: int|
                0 <= k < i ==> {
                    &&& (#[trigger] r@[k]).text@ == ls[k]
                    &&& r@[k].highlight == is_own_frame(ls[k])
                    &&& r@[k].before_highlight == is_own_frame(ls[k + 1])
                },
        decreases lines@.len() - i,
    {
        assert(lines@[i as int]@ == ls[i as int]);
        assert(lines@[i + 1]@ == ls[i + 1]);
        let highlight = own_frame(lines[i]);
        let before_highlight = own_frame(lines[i + 1]);
        r.push(BacktraceLine { text: String::from_str(lines[i]), highlight, before_highlight });
        i = i + 1;
    }
    r
}

/// Whether `c` may stand between `ESC [` and the final `m` of a colour sequence.
pub open spec fn is_sgr_param(c: char) -> bool {
    ('0' as u32 <= c as u32 && c as u32 <= '9' as u32) || c == ';'
}

/// The first index from `k` on whose character is not a colour-sequence parameter.
pub open spec fn param_run_end(s: Seq<char>, k: int) -> int
    decreases s.len() - k,
{
    if k < 0 || k >= s.len() || !is_sgr_param(s[k]) {
        k
    } else {
        param_run_end(s, k + 1)
    }
}

/// A parameter run ends no earlier than it starts.
pub proof fn lemma_param_run_end(s: Seq<char>, k: int)
    ensures
        param_run_end(s, k) >= k,
    decreases s.len() - k,
{
    if !(k < 0 || k >= s.len() || !is_sgr_param(s[k])) {
        lemma_param_run_end(s, k + 1);
    }
}

/// The length of the colour sequence `ESC [ params m` that `s` starts with, or zero.
pub open spec fn sgr_len(s: Seq<char>) -> int {
    let e = param_run_end(s, 2);
    if s.len() >= 2 && s[0] == '\u{1b}' && s[1] == '[' && e < s.len() && s[e] == 'm' {
        e + 1
    } else {
        0
    }
}

/// The text `s` shows on a terminal: `s` without its colour sequences.
pub open spec fn strip_ansi(s: Seq<char>) -> Seq<char>
    decreases s.len(),
{
    if s.len() == 0 {
        Seq::empty()
    } else if sgr_len(s) > 0 {
        proof {
            lemma_param_run_end(s, 2);
        }
        strip_ansi(s.subrange(sgr_len(s), s.len() as int))
    } else {
        seq![s[0]] + strip_ansi(s.subrange(1, s.len() as int))
    }
}

/// Whether `r` shows the same text as `t`, whatever colour sequences either holds.
pub open spec fn shows_as(r: Seq<char>, t: Seq<char>) -> bool {
    strip_ansi(r) == strip_ansi(t)
}

/// Relies on colored's `Colorize::truecolor` and the `Display` of the `ColoredString` it
/// returns. When colouring is off (by the environment or the terminal) that is the text
/// as it is; when it is on, a colour sequence, the text with the colour sequence put again
/// after each reset sequence inside it, and a reset sequence. Either way it shows the same
/// text.
#[verifier::external_body]
fn paint(text: &str, red: u8, green: u8, blue: u8) -> (r: String)
    ensures
        shows_as(r@, text@),
{
    format!("{}", text.truecolor(red, green, blue))
}

/// Whether `piece` is how the highlighted backtrace shows the line `line`: painted when
/// it is a frame of the project's own sources, followed by a line break, and the whole
/// painted again when the next line is such a frame; unchanged where nothing is
/// painted.
pub open spec fn is_shown_line(piece: Seq<char>, inner: Seq<char>, line: Seq<char>, next: Seq<char>) -> bool {
    &&& if is_own_frame(line) {
        shows_as(inner, line)
    } else {
        inner == line
    }
    &&& if is_own_frame(next) {
        shows_as(piece, inner + "\n"@)
    } else {
        piece == inner + "\n"@
    }
}

/// Whether `r` is the highlighted form of the lines `lines`: the pieces, one for each
/// line but the last, in order, each showing its line as `is_shown_line` says.
pub open spec fn is_shown_backtrace(
    r: Seq<char>,
    lines: Seq<Seq<char>>,
    pieces: Seq<Seq<char>>,
    inners: Seq<Seq<char>>,
) -> bool {
    &&& pieces.len() == lines.len() - 1
    &&& inners.len() == pieces.len()
    &&& r == pieces.flatten_alt()
    &&& forall|i: int|
        0 <= i < pieces.len() ==> is_shown_line(#[trigger] pieces[i], inners[i], lines[i], lines[i + 1])
}

/// Highlights a backtrace: frames of the project's own sources in light red, the line
/// before each of them in a darker red, every line ended by a line break; the text after
/// the last line break is left out. The result is the pieces of all lines but the last,
/// in order.
pub fn color_backtrace(backtrace: &str) -> (r: String)
    ensures
        exists|pieces: Seq<Seq<char>>, inners: Seq<Seq<char>>|
            #[trigger] is_shown_backtrace(r@, split_lines(backtrace@), pieces, inners),
{
    let plan = backtrace_plan(backtrace);
    let ghost lines = split_lines(backtrace@);
    let ghost mut pieces: Seq<Seq<char>> = Seq::empty();
    let ghost mut inners: Seq<Seq<char>> = Seq::empty();
    let mut ret_str = String::new();
    let mut i: usize = 0;
    while i < plan.len()
        invariant
            i <= plan@.len(),
            lines == split_lines(backtrace@),
            plan@.len() == lines.len() - 1,
            forall|k: int|
                0 <= k < plan@.len() ==> {
                    &&& (#[trigger] plan@[k]).text@ == lines[k]
                    &&& plan@[k].highlight == is_own_frame(lines[k])
                    &&& plan@[k].before_highlight == is_own_frame(lines[k + 1])
                },
            pieces.len() == i,
            inners.len() == i,
            ret_str@ == pieces.flatten_alt(),
            forall|k: int|
                0 <= k < i ==> is_shown_line(#[trigger] pieces[k], inners[k], lines[k], lines[k + 1]),
        decreases plan@.len() - i,
    {
        let line = &plan[i];
        let mut piece = if line.highlight {
            paint(line.text.as_str(), 255, 100, 100)
        } else {
            line.text.clone()
        };
        let ghost inner = piece@;
        piece.append("\n");
        if line.before_highlight {
            piece = paint(piece.as_str(), 255, 30, 30);
        }
        let ghost old_pieces = pieces;
        proof {
            pieces = pieces.push(piece@);
            inners = inners.push(inner);
            assert(pieces.drop_last() =~= old_pieces);
        }
        ret_str.append(piece.as_str());
        i = i + 1;
    }
    assert(is_shown_backtrace(ret_str@, lines, pieces, inners));
    ret_str
}

} // verus!
