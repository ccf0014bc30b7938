use vstd::prelude::*;
use vstd::string::{StrSliceExecFns, StringExecFns};
use crate::commands::word_is;
use crate::text::chars_of;

verus! {

broadcast use vstd::string::group_string_axioms;

/// `c` starts with the lowercase word `w` in any case, then a space.
pub open spec fn starts_with_word(c: Seq<char>, w: Seq<char>) -> bool {
    c.len() > w.len() && word_is(c.take(w.len() as int), w) && c[w.len() as int] == ' '
}

/// The line the key-value client sends for a command: `set <key> <value>`,
/// `get <key>` and `del <key>` get their keyword in capitals (a `set`
/// without a value is left as it is); anything else goes as typed.
pub open spec fn kv_line(c: Seq<char>) -> Seq<char> {
    if starts_with_word(c, seq!['s', 'e', 't']) {
        if c.skip(4).contains(' ') { seq!['S', 'E', 'T', ' '] + c.skip(4) } else { c }
    } else if starts_with_word(c, seq!['g', 'e', 't']) {
        seq!['G', 'E', 'T', ' '] + c.skip(4)
    } else if starts_with_word(c, seq!['d', 'e', 'l']) {
        seq!['D', 'E', 'L', ' '] + c.skip(4)
    } else {
        c
    }
}

/// Whether `t` starts with `w` in any case, then a space.
fn has_word_prefix(t: &Vec<char>, w: &Vec<char>) -> (b: bool)
    ensures
        b == starts_with_word(t@, w@),
{
    if t.len() <= w.len() {
        return false;
    }
    let mut i: usize = 0;
    while i < w.len()
        invariant
            i <= w@.len(),
            w@.len() < t@.len(),
            forall|j: int| 0 <= j < i ==> crate::commands::lowers_to(#[trigger] t@.take(w@.len() as int)[j], w@[j]),
        decreases w@.len() - i,
    {
        let c = t[i];
        let x = w[i];
        let ok = c == x || ('A' <= c && c <= 'Z' && (c as u32) + 32 == (x as u32)) || (x == 'k' && c == '\u{212a}');
        assert(t@.take(w@.len() as int)[i as int] == c);
        if !ok {
            assert(!crate::commands::lowers_to(t@.take(w@.len() as int)[i as int], w@[i as int]));
            return false;
        }
        i = i + 1;
    }
    t[w.len()] == ' '
}

/// Formats a command of the key-value client (see `kv_line`).
pub fn format_kv_command(command: &str) -> (r: String)
    ensures
        r@ == kv_line(command@),
{
    let t = chars_of(command);
    let set_w: Vec<char> = vec!['s', 'e', 't'];
    let get_w: Vec<char> = vec!['g', 'e', 't'];
    let del_w: Vec<char> = vec!['d', 'e', 'l'];
    assert(set_w@ =~= seq!['s', 'e', 't']);
    assert(get_w@ =~= seq!['g', 'e', 't']);
    assert(del_w@ =~= seq!['d', 'e', 'l']);
    proof {
        reveal_strlit("SET ");
        reveal_strlit("GET ");
        reveal_strlit("DEL ");
    }
    if has_word_prefix(&t, &set_w) {
        let mut i: usize = 4;
        while i < t.len() && t[i] != ' '
            invariant
                4 <= i <= t@.len(),
                forall|j: int| 4 <= j < i ==> t@[j] != ' ',
            decreases t@.len() - i,
        {
            i = i + 1;
        }
        if i < t.len() {
            assert(t@.skip(4)[i - 4] == ' ');
            let mut s = String::from_str("SET ");
            s.append(command.substring_char(4, t.len()));
            assert(t@.subrange(4, t@.len() as int) =~= t@.skip(4));
            return s;
        }
        proof {
            assert forall|j: int| 0 <= j < t@.skip(4).len() implies t@.skip(4)[j] != ' ' by {
                assert(t@.skip(4)[j] == t@[j + 4]);
            }
        }
        return command.to_owned();
    }
    if has_word_prefix(&t, &get_w) {
        let mut s = String::from_str("GET ");
        s.append(command.substring_char(4, t.len()));
        assert(t@.subrange(4, t@.len() as int) =~= t@.skip(4));
        return s;
    }
    if has_word_prefix(&t, &del_w) {
        let mut s = String::from_str("DEL ");
        s.append(command.substring_char(4, t.len()));
        assert(t@.subrange(4, t@.len() as int) =~= t@.skip(4));
        return s;
    }
    command.to_owned()
}

} // verus!
