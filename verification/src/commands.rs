use vstd::prelude::*;
use vstd::string::StrSliceExecFns;
use vstd::utf8::encode_utf8;
use vstd::string::StringExecFns;
use crate::decimal::{parse_u64, spec_parse_u64};
use crate::text::{chars_of, is_ws, lemma_words_of_unbroken, span_text, trim, trim_bounds, word_spans, words};

verus! {

/// A socket operation that a process asks the consensus node to perform.
#[derive(Clone, Debug)]
pub enum NetworkOperation {
    Connect { dest_addr: String, dest_port: u16, src_port: u16 },
    Send { src_port: u16, data: Vec<u8> },
    Close { src_port: u16 },
    Listen { src_port: u16 },
    /// `new_port` is the port the runtime reserved for the accepted connection.
    Accept { src_port: u16, new_port: u16 },
    Recv { src_port: u16 },
}

impl NetworkOperation {
    /// The process-side port the operation is about.
    pub open spec fn spec_src_port(&self) -> u16 {
        match *self {
            NetworkOperation::Connect { src_port, .. } => src_port,
            NetworkOperation::Send { src_port, .. } => src_port,
            NetworkOperation::Close { src_port } => src_port,
            NetworkOperation::Listen { src_port } => src_port,
            NetworkOperation::Accept { src_port, .. } => src_port,
            NetworkOperation::Recv { src_port } => src_port,
        }
    }

    pub fn src_port(&self) -> (p: u16)
        ensures
            p == self.spec_src_port(),
    {
        match self {
            NetworkOperation::Connect { src_port, .. } => *src_port,
            NetworkOperation::Send { src_port, .. } => *src_port,
            NetworkOperation::Close { src_port } => *src_port,
            NetworkOperation::Listen { src_port } => *src_port,
            NetworkOperation::Accept { src_port, .. } => *src_port,
            NetworkOperation::Recv { src_port } => *src_port,
        }
    }
}

/// High-level command variants.
#[derive(Clone, Debug)]
pub enum Command {
    /// Advance the deterministic clock by this many nanoseconds.
    Clock(u64),
    Init { wasm_bytes: Vec<u8>, dir_path: Option<String>, args: Vec<String> },
    /// Input for a process: pid, bytes.
    FDMsg(u64, Vec<u8>),
    /// A file-transfer command for a process: pid, command text.
    Ftp(u64, String),
    /// Network data for a process: pid, destination port, bytes.
    NetworkIn(u64, u16, Vec<u8>),
    /// A network request of a process: pid, operation.
    NetworkOut(u64, NetworkOperation),
}

/// A command line of the operator, as read: `init` names its module file
/// rather than holding its bytes, which the caller reads from disk.
pub enum ParsedCommand {
    Init { wasm_path: String, dir_path: Option<String>, args: Vec<String> },
    /// Input for a process: pid, the message bytes.
    Msg(u64, Vec<u8>),
    /// A file-transfer command for a process: pid, the command text.
    Ftp(u64, String),
    Clock(u64),
}

/// `c` lowercases (as `char::to_lowercase`) to the lowercase ASCII letter
/// `x`: `x` itself, its capital, or for `k` the Kelvin sign.
pub open spec fn lowers_to(c: char, x: char) -> bool {
    ||| c == x
    ||| ('A' <= c && c <= 'Z' && (c as u32) + 32 == (x as u32))
    ||| (x == 'k' && c == '\u{212a}')
}

/// `w` lowercases to the lowercase ASCII word `target`.
pub open spec fn word_is(w: Seq<char>, target: Seq<char>) -> bool {
    w.len() == target.len() && forall|i: int| 0 <= i < w.len() ==> lowers_to(#[trigger] w[i], target[i])
}

/// `w` equals the lowercase ASCII word `target` ignoring ASCII case, as
/// `str::eq_ignore_ascii_case` compares.
pub open spec fn ascii_ci_eq(w: Seq<char>, target: Seq<char>) -> bool {
    w.len() == target.len() && forall|i: int| 0 <= i < w.len() ==>
        (#[trigger] w[i] == target[i] || ('A' <= w[i] && w[i] <= 'Z' && w[i] as int + 32 == target[i] as int))
}

/// The words `ws` joined by single spaces.
pub open spec fn joined(ws: Seq<Seq<char>>) -> Seq<char>
    decreases ws.len(),
{
    if ws.len() == 0 {
        Seq::empty()
    } else if ws.len() == 1 {
        ws[0]
    } else {
        joined(ws.drop_last()) + seq![' '] + ws.last()
    }
}

/// The options of an `init` line from word `i` on, given the directory
/// named so far: `-d <dir>` names the directory, `-a` takes every later
/// word as an argument; anything else, or a flag without a value, is an
/// error (`None`).
pub open spec fn init_opts(ws: Seq<Seq<char>>, i: int, dir: Option<Seq<char>>) -> Option<(Option<Seq<char>>, Seq<Seq<char>>)>
    decreases ws.len() - i,
{
    if i >= ws.len() {
        Some((dir, Seq::empty()))
    } else if ws[i] == seq!['-', 'd'] {
        if i + 1 < ws.len() { init_opts(ws, i + 2, Some(ws[i + 1])) } else { None }
    } else if ws[i] == seq!['-', 'a'] {
        if i + 1 < ws.len() { Some((dir, ws.skip(i + 1))) } else { None }
    } else {
        None
    }
}

/// A number word as `parse::<u64>().unwrap_or(0)` reads it.
pub open spec fn number_or_zero(w: Seq<char>) -> u64 {
    match spec_parse_u64(w) {
        Some(n) => n,
        None => 0,
    }
}

pub open spec fn opt_text(o: Option<String>) -> Option<Seq<char>> {
    match o {
        Some(s) => Some(s@),
        None => None,
    }
}

/// The command of a line: `exit` (any ASCII case) or a blank line is none;
/// the first word, in any case, picks `init <file> [-d dir] [-a args..]`,
/// `msg <pid> <words..>`, `ftp <pid> <words..>` or `clock <nanoseconds>`;
/// the words after the pid are joined by single spaces. A missing operand or an
/// unknown command is none. A pid or clock that does not read as a number
/// is 0.
pub open spec fn command_spec(line: Seq<char>, r: Option<ParsedCommand>) -> bool {
    let t = trim(line);
    let ws = words(t);
    if ascii_ci_eq(t, seq!['e', 'x', 'i', 't']) || ws.len() == 0 {
        r is None
    } else if word_is(ws[0], seq!['i', 'n', 'i', 't']) {
        if ws.len() < 2 {
            r is None
        } else {
            match init_opts(ws, 2, None) {
                None => r is None,
                Some((dir, args)) => r matches Some(ParsedCommand::Init { wasm_path, dir_path, args: a })
                    && wasm_path@ == ws[1] && opt_text(dir_path) == dir
                    && a@.map_values(|s: String| s@) == args,
            }
        }
    } else if word_is(ws[0], seq!['m', 's', 'g']) {
        if ws.len() < 3 {
            r is None
        } else {
            r matches Some(ParsedCommand::Msg(pid, bytes))
                && pid == number_or_zero(ws[1]) && bytes@ == encode_utf8(joined(ws.skip(2)))
        }
    } else if word_is(ws[0], seq!['f', 't', 'p']) {
        if ws.len() < 3 {
            r is None
        } else {
            r matches Some(ParsedCommand::Ftp(pid, text))
                && pid == number_or_zero(ws[1]) && text@ == joined(ws.skip(2))
        }
    } else if word_is(ws[0], seq!['c', 'l', 'o', 'c', 'k']) {
        if ws.len() < 2 {
            r is None
        } else {
            r == Some(ParsedCommand::Clock(number_or_zero(ws[1])))
        }
    } else {
        r is None
    }
}

/// A line of several words is not `exit`.
proof fn lemma_exit_is_one_word(t: Seq<char>)
    requires
        ascii_ci_eq(t, seq!['e', 'x', 'i', 't']),
    ensures
        words(t).len() == 1,
{
    assert forall|i: int| 0 <= i < t.len() implies !is_ws(#[trigger] t[i]) by {
        assert(t[i] == seq!['e', 'x', 'i', 't'][i] || ('A' <= t[i] && t[i] <= 'Z'));
    }
    lemma_words_of_unbroken(t);
}

/// The directory an `init` line names with `-d` is kept: when the words
/// after the module are `-d <dir>`, alone or followed by `-a` and at least
/// one argument, the line parses to that module with directory `<dir>` and,
/// after `-a`, every later word as an argument.
pub proof fn lemma_init_dir_kept(line: Seq<char>, r: Option<ParsedCommand>)
    requires
        command_spec(line, r),
        words(trim(line)).len() >= 4,
        word_is(words(trim(line))[0], seq!['i', 'n', 'i', 't']),
        words(trim(line))[2] == seq!['-', 'd'],
        words(trim(line)).len() == 4 || (words(trim(line)).len() >= 6 && words(trim(line))[4] == seq!['-', 'a']),
    ensures
        r matches Some(ParsedCommand::Init { wasm_path, dir_path, args })
            && wasm_path@ == words(trim(line))[1]
            && opt_text(dir_path) == Some(words(trim(line))[3])
            && args@.map_values(|s: String| s@) == words(trim(line)).skip(4 + (if words(trim(line)).len() > 4 { 1int } else { 0int })),
{
    let ws = words(trim(line));
    if ascii_ci_eq(trim(line), seq!['e', 'x', 'i', 't']) {
        lemma_exit_is_one_word(trim(line));
    }
    assert(ws[2] == seq!['-', 'd']);
    if ws.len() > 4 {
        assert(ws[4] != seq!['-', 'd']) by {
            assert(ws[4][1] == 'a');
        }
        assert(init_opts(ws, 4, Some(ws[3])) == Some((Some(ws[3]), ws.skip(5))));
    } else {
        assert(ws.skip(4) =~= Seq::<Seq<char>>::empty());
        assert(init_opts(ws, 4, Some(ws[3])) == Some((Some(ws[3]), Seq::<Seq<char>>::empty())));
    }
    assert(init_opts(ws, 2, None) == init_opts(ws, 4, Some(ws[3])));
}

/// Whether `t[a..b]` lowercases to `target`.
fn span_is_word(t: &Vec<char>, a: usize, b: usize, target: &Vec<char>) -> (r: bool)
    requires
        a <= b <= t@.len(),
    ensures
        r == word_is(t@.subrange(a as int, b as int), target@),
{
    let ghost w = t@.subrange(a as int, b as int);
    if b - a != target.len() {
        return false;
    }
    let mut i: usize = 0;
    while i < target.len()
        invariant
            a <= b <= t@.len(),
            b - a == target@.len(),
            i <= target@.len(),
            w == t@.subrange(a as int, b as int),
            forall|j: int| 0 <= j < i ==> lowers_to(#[trigger] w[j], target@[j]),
        decreases target@.len() - i,
    {
        let c = t[a + i];
        let x = target[i];
        let ok = c == x || ('A' <= c && c <= 'Z' && (c as u32) + 32 == (x as u32)) || (x == 'k' && c == '\u{212a}');
        assert(w[i as int] == c);
        assert(ok == lowers_to(w[i as int], target@[i as int]));
        if !ok {
            return false;
        }
        i = i + 1;
    }
    true
}

/// Whether `t[a..b]` is exactly `target`.
fn span_equals(t: &Vec<char>, a: usize, b: usize, target: &Vec<char>) -> (r: bool)
    requires
        a <= b <= t@.len(),
    ensures
        r == (t@.subrange(a as int, b as int) == target@),
{
    if b - a != target.len() {
        return false;
    }
    let mut i: usize = 0;
    while i < target.len()
        invariant
            a <= b <= t@.len(),
            b - a == target@.len(),
            i <= target@.len(),
            forall|j: int| 0 <= j < i ==> t@[a + j] == target@[j],
        decreases target@.len() - i,
    {
        if t[a + i] != target[i] {
            assert(t@.subrange(a as int, b as int)[i as int] != target@[i as int]);
            return false;
        }
        i = i + 1;
    }
    assert(t@.subrange(a as int, b as int) =~= target@);
    true
}

/// The words of `trimmed` from the third on, joined by single spaces.
fn join_words_from(trimmed: &str, t: &Vec<char>, spans: &Vec<(usize, usize)>, Ghost(ws): Ghost<Seq<Seq<char>>>) -> (msg: String)
    requires
        spans@.len() == ws.len(),
        spans@.len() >= 2,
        trimmed@ == t@,
        forall|p: int| 0 <= p < spans@.len() ==> (#[trigger] spans@[p]).0 < spans@[p].1 <= t@.len(),
        forall|p: int| 0 <= p < spans@.len() ==> #[trigger] ws[p] == t@.subrange(spans@[p].0 as int, spans@[p].1 as int),
    ensures
        msg@ == joined(ws.skip(2)),
{
    let mut msg = String::new();
    let mut q: usize = 2;
    proof {
        reveal_strlit(" ");
        assert(ws.subrange(2, 2) =~= Seq::<Seq<char>>::empty());
    }
    while q < spans.len()
        invariant
            2 <= q <= spans@.len(),
            spans@.len() == ws.len(),
            trimmed@ == t@,
            forall|p: int| 0 <= p < spans@.len() ==> (#[trigger] spans@[p]).0 < spans@[p].1 <= t@.len(),
            forall|p: int| 0 <= p < spans@.len() ==> #[trigger] ws[p] == t@.subrange(spans@[p].0 as int, spans@[p].1 as int),
            msg@ == joined(ws.subrange(2, q as int)),
        decreases spans@.len() - q,
    {
        let (sq, eq) = spans[q];
        assert(ws[q as int] == t@.subrange(sq as int, eq as int));
        proof {
            reveal_strlit(" ");
        }
        let ghost before = ws.subrange(2, q as int);
        assert(ws.subrange(2, q + 1).drop_last() =~= before);
        assert(ws.subrange(2, q + 1).last() == ws[q as int]);
        if q > 2 {
            msg.append(" ");
        }
        msg.append(trimmed.substring_char(sq, eq));
        assert(msg@ =~= joined(ws.subrange(2, q + 1)));
        q = q + 1;
    }
    assert(ws.subrange(2, ws.len() as int) =~= ws.skip(2));
    msg
}

/// Parses one line of the operator's console (see `command_spec`).
pub fn parse_command(line: &str) -> (r: Option<ParsedCommand>)
    ensures
        command_spec(line@, r),
{
    let all = chars_of(line);
    let (a, b) = trim_bounds(&all, 0, all.len());
    assert(all@.subrange(0, all@.len() as int) =~= all@);
    let trimmed = line.substring_char(a, b);
    let t = chars_of(trimmed);
    let ghost ts = t@;
    assert(ts == trim(line@));
    let exit_word: Vec<char> = vec!['e', 'x', 'i', 't'];
    let mut is_exit = t.len() == 4;
    let mut i: usize = 0;
    while i < 4 && is_exit
        invariant
            i <= 4,
            exit_word@ == seq!['e', 'x', 'i', 't'],
            is_exit ==> t@.len() == 4 && forall|j: int| 0 <= j < i ==>
                (#[trigger] t@[j] == exit_word@[j] || ('A' <= t@[j] && t@[j] <= 'Z' && t@[j] as int + 32 == exit_word@[j] as int)),
            !is_exit ==> !ascii_ci_eq(t@, seq!['e', 'x', 'i', 't']),
        decreases 4 - i,
    {
        let c = t[i];
        let x = exit_word[i];
        if !(c == x || ('A' <= c && c <= 'Z' && (c as u32) + 32 == x as u32)) {
            is_exit = false;
        }
        i = i + 1;
    }
    if is_exit {
        assert(ascii_ci_eq(t@, seq!['e', 'x', 'i', 't']));
        return None;
    }
    let spans = word_spans(&t);
    let ghost ws = words(ts);
    assert(spans@.len() == ws.len());
    assert(forall|k: int| 0 <= k < spans@.len() ==> #[trigger] ws[k] == t@.subrange(spans@[k].0 as int, spans@[k].1 as int)) by {
        assert forall|k: int| 0 <= k < spans@.len() implies #[trigger] ws[k] == t@.subrange(spans@[k].0 as int, spans@[k].1 as int) by {
            assert(spans@.map_values(|sp: (usize, usize)| span_text(t@, sp))[k] == span_text(t@, spans@[k]));
        }
    }
    if spans.len() == 0 {
        return None;
    }
    let (s0, e0) = spans[0];
    assert(ws[0] == t@.subrange(s0 as int, e0 as int));
    let init_w: Vec<char> = vec!['i', 'n', 'i', 't'];
    let msg_w: Vec<char> = vec!['m', 's', 'g'];
    let clock_w: Vec<char> = vec!['c', 'l', 'o', 'c', 'k'];
    let ftp_w: Vec<char> = vec!['f', 't', 'p'];
    assert(ftp_w@ =~= seq!['f', 't', 'p']);
    assert(init_w@ =~= seq!['i', 'n', 'i', 't']);
    assert(msg_w@ =~= seq!['m', 's', 'g']);
    assert(clock_w@ =~= seq!['c', 'l', 'o', 'c', 'k']);
    if span_is_word(&t, s0, e0, &init_w) {
        if spans.len() < 2 {
            return None;
        }
        let (s1, e1) = spans[1];
        let wasm_path = trimmed.substring_char(s1, e1).to_owned();
        let dash_d: Vec<char> = vec!['-', 'd'];
        let dash_a: Vec<char> = vec!['-', 'a'];
        assert(dash_d@ =~= seq!['-', 'd']);
        assert(dash_a@ =~= seq!['-', 'a']);
        let mut dir_path: Option<String> = None;
        let mut args: Vec<String> = Vec::new();
        let mut k: usize = 2;
        while k < spans.len()
            invariant_except_break
                init_opts(ws, 2, None) == init_opts(ws, k as int, opt_text(dir_path)),
                args@.map_values(|s: String| s@) == Seq::<Seq<char>>::empty(),
            invariant
                2 <= k,
                ws == words(trim(line@)),
                !ascii_ci_eq(trim(line@), seq!['e', 'x', 'i', 't']),
                ws.len() >= 2,
                word_is(ws[0], seq!['i', 'n', 'i', 't']),
                spans@.len() == ws.len(),
                trimmed@ == t@,
                forall|q: int| 0 <= q < spans@.len() ==> (#[trigger] spans@[q]).0 < spans@[q].1 <= t@.len(),
                forall|q: int| 0 <= q < spans@.len() ==> #[trigger] ws[q] == t@.subrange(spans@[q].0 as int, spans@[q].1 as int),
                dash_d@ == seq!['-', 'd'],
                dash_a@ == seq!['-', 'a'],
            ensures
                init_opts(ws, 2, None) == Some((opt_text(dir_path), args@.map_values(|s: String| s@))),
            decreases spans@.len() - k,
        {
            let (sk, ek) = spans[k];
            assert(ws[k as int] == t@.subrange(sk as int, ek as int));
            if span_equals(&t, sk, ek, &dash_d) {
                if k + 1 < spans.len() {
                    let (sv, ev) = spans[k + 1];
                    assert(ws[k + 1] == t@.subrange(sv as int, ev as int));
                    dir_path = Some(trimmed.substring_char(sv, ev).to_owned());
                    k = k + 2;
                } else {
                    return None;
                }
            } else if span_equals(&t, sk, ek, &dash_a) {
                if k + 1 < spans.len() {
                    let mut q = k + 1;
                    while q < spans.len()
                        invariant
                            k + 1 <= q <= spans@.len(),
                            spans@.len() == ws.len(),
                            trimmed@ == t@,
                            forall|p: int| 0 <= p < spans@.len() ==> (#[trigger] spans@[p]).0 < spans@[p].1 <= t@.len(),
                            forall|p: int| 0 <= p < spans@.len() ==> #[trigger] ws[p] == t@.subrange(spans@[p].0 as int, spans@[p].1 as int),
                            args@.map_values(|s: String| s@) == ws.subrange(k + 1, q as int),
                        decreases spans@.len() - q,
                    {
                        let (sq, eq) = spans[q];
                        assert(ws[q as int] == t@.subrange(sq as int, eq as int));
                        let ghost before = args@.map_values(|s: String| s@);
                        args.push(trimmed.substring_char(sq, eq).to_owned());
                        assert(args@.map_values(|s: String| s@) =~= before.push(ws[q as int]));
                        assert(ws.subrange(k + 1, q + 1) =~= ws.subrange(k + 1, q as int).push(ws[q as int]));
                        q = q + 1;
                    }
                    assert(ws.subrange(k + 1, ws.len() as int) =~= ws.skip(k + 1));
                    break;
                } else {
                    return None;
                }
            } else {
                return None;
            }
        }
        assert(ws[1] == t@.subrange(s1 as int, e1 as int));
        return Some(ParsedCommand::Init { wasm_path, dir_path, args });
    } else if span_is_word(&t, s0, e0, &msg_w) {
        if spans.len() < 3 {
            return None;
        }
        let (s1, e1) = spans[1];
        assert(ws[1] == t@.subrange(s1 as int, e1 as int));
        let pid = match parse_u64(&t, s1, e1) {
            Some(p) => p,
            None => 0,
        };
        let msg = join_words_from(trimmed, &t, &spans, Ghost(ws));
        let bytes = msg.as_str().as_bytes_vec();
        return Some(ParsedCommand::Msg(pid, bytes));
    } else if span_is_word(&t, s0, e0, &ftp_w) {
        if spans.len() < 3 {
            return None;
        }
        let (s1, e1) = spans[1];
        assert(ws[1] == t@.subrange(s1 as int, e1 as int));
        let pid = match parse_u64(&t, s1, e1) {
            Some(p) => p,
            None => 0,
        };
        let text = join_words_from(trimmed, &t, &spans, Ghost(ws));
        return Some(ParsedCommand::Ftp(pid, text));
    } else if span_is_word(&t, s0, e0, &clock_w) {
        if spans.len() < 2 {
            return None;
        }
        let (s1, e1) = spans[1];
        assert(ws[1] == t@.subrange(s1 as int, e1 as int));
        let delta = match parse_u64(&t, s1, e1) {
            Some(d) => d,
            None => 0,
        };
        return Some(ParsedCommand::Clock(delta));
    }
    None
}

} // verus!
