use vstd::prelude::*;

use crate::errors::TodoError;
use crate::models::todo::{Todo, TodoView};
use crate::utils::text::{chars_to_string, str_to_chars};

verus! {

// ---------------------------------------------------------------------
// The textual form of a list.
//
// A list is stored as a pretty-printed array of objects, two-space
// indented, each object holding the item's text (a quoted string with
// the usual escapes) and its done-flag:
//
//     [
//       {
//         "text": "Buy milk",
//         "done": false
//       }
//     ]
//
// An empty list is stored as `[]`.
// ---------------------------------------------------------------------
/// The lower-case character for one hexadecimal digit.
pub open spec fn hex_digit_char(d: nat) -> char {
    if d == 0 {
        '0'
    } else if d == 1 {
        '1'
    } else if d == 2 {
        '2'
    } else if d == 3 {
        '3'
    } else if d == 4 {
        '4'
    } else if d == 5 {
        '5'
    } else if d == 6 {
        '6'
    } else if d == 7 {
        '7'
    } else if d == 8 {
        '8'
    } else if d == 9 {
        '9'
    } else if d == 10 {
        'a'
    } else if d == 11 {
        'b'
    } else if d == 12 {
        'c'
    } else if d == 13 {
        'd'
    } else if d == 14 {
        'e'
    } else {
        'f'
    }
}

/// How one character of an item's text is written inside a quoted
/// string: quote and backslash get a backslash, the common control
/// characters their short escapes, the remaining control characters a
/// `\u00..` escape, and everything else stands as itself.
pub open spec fn escape_char(c: char) -> Seq<char> {
    if c == '"' {
        seq!['\\', '"']
    } else if c == '\\' {
        seq!['\\', '\\']
    } else if c == '\u{8}' {
        seq!['\\', 'b']
    } else if c == '\u{c}' {
        seq!['\\', 'f']
    } else if c == '\n' {
        seq!['\\', 'n']
    } else if c == '\r' {
        seq!['\\', 'r']
    } else if c == '\t' {
        seq!['\\', 't']
    } else if (c as u32) < 0x20 {
        seq!['\\', 'u', '0', '0', hex_digit_char((c as u32) as nat / 16), hex_digit_char(
            (c as u32) as nat % 16,
        )]
    } else {
        seq![c]
    }
}

/// A whole text, written character by character.
pub open spec fn escape_str(s: Seq<char>) -> Seq<char>
    decreases s.len(),
{
    if s.len() == 0 {
        Seq::empty()
    } else {
        escape_char(s[0]) + escape_str(s.drop_first())
    }
}

/// The characters of a stored done-flag.
pub open spec fn bool_rep(b: bool) -> Seq<char> {
    if b {
        seq!['t', 'r', 'u', 'e']
    } else {
        seq!['f', 'a', 'l', 's', 'e']
    }
}

/// The `"text"` member of a stored item, key through closing quote.
pub open spec fn member_text_rep(text: Seq<char>) -> Seq<char> {
    seq!['"', 't', 'e', 'x', 't', '"', ':', ' ', '"'] + escape_str(text) + seq!['"']
}

/// The `"done"` member of a stored item.
pub open spec fn member_done_rep(b: bool) -> Seq<char> {
    seq!['"', 'd', 'o', 'n', 'e', '"', ':', ' '] + bool_rep(b)
}

/// One stored item from its opening brace, members indented four
/// spaces, the closing brace indented two.
pub open spec fn item_core(t: TodoView) -> Seq<char> {
    seq!['{', '\n', ' ', ' ', ' ', ' '] + member_text_rep(t.text) + seq![',', '\n', ' ', ' ', ' ',
        ' '] + member_done_rep(t.done) + seq!['\n', ' ', ' ', '}']
}

/// One stored item with its two-space indent.
pub open spec fn encode_item(t: TodoView) -> Seq<char> {
    seq![' ', ' '] + item_core(t)
}

/// The stored items, separated by a comma and a line break.
pub open spec fn encode_items(l: Seq<TodoView>) -> Seq<char>
    decreases l.len(),
{
    if l.len() == 0 {
        Seq::empty()
    } else if l.len() == 1 {
        encode_item(l[0])
    } else {
        encode_item(l[0]) + seq![',', '\n'] + encode_items(l.drop_first())
    }
}

/// The stored form of a whole list.
pub open spec fn encode_list(l: Seq<TodoView>) -> Seq<char> {
    if l.len() == 0 {
        seq!['[', ']']
    } else {
        seq!['[', '\n'] + encode_items(l) + seq!['\n', ']']
    }
}

// ---------------------------------------------------------------------
// Writing.
// ---------------------------------------------------------------------
/// The lower-case character for one hexadecimal digit.
fn hex_digit(d: u32) -> (c: char)
    requires
        d < 16,
    ensures
        c == hex_digit_char(d as nat),
{
    match d {
        0 => '0',
        1 => '1',
        2 => '2',
        3 => '3',
        4 => '4',
        5 => '5',
        6 => '6',
        7 => '7',
        8 => '8',
        9 => '9',
        10 => 'a',
        11 => 'b',
        12 => 'c',
        13 => 'd',
        14 => 'e',
        _ => 'f',
    }
}

/// Appends one text character in its stored form.
fn push_escaped(out: &mut Vec<char>, c: char)
    ensures
        final(out)@ == old(out)@ + escape_char(c),
{
    let ghost pre = out@;
    if c == '"' {
        out.push('\\');
        out.push('"');
    } else if c == '\\' {
        out.push('\\');
        out.push('\\');
    } else if c == '\u{8}' {
        out.push('\\');
        out.push('b');
    } else if c == '\u{c}' {
        out.push('\\');
        out.push('f');
    } else if c == '\n' {
        out.push('\\');
        out.push('n');
    } else if c == '\r' {
        out.push('\\');
        out.push('r');
    } else if c == '\t' {
        out.push('\\');
        out.push('t');
    } else if (c as u32) < 0x20 {
        let u = c as u32;
        out.push('\\');
        out.push('u');
        out.push('0');
        out.push('0');
        out.push(hex_digit(u / 16));
        out.push(hex_digit(u % 16));
    } else {
        out.push(c);
    }
    proof {
        assert(out@ =~= pre + escape_char(c));
    }
}

/// Appends a whole text in its stored form.
fn push_escaped_str(out: &mut Vec<char>, text: &str)
    ensures
        final(out)@ == old(out)@ + escape_str(text@),
{
    let chars = str_to_chars(text);
    let len = chars.len();
    let mut i: usize = 0;
    proof {
        assert(old(out)@ + escape_str(text@.take(0)) =~= old(out)@);
    }
    while i < len
        invariant
            i <= len,
            len == text@.len(),
            chars@ == text@,
            out@ == old(out)@ + escape_str(text@.take(i as int)),
        decreases len - i,
    {
        push_escaped(out, chars[i]);
        proof {
            let c = text@[i as int];
            lemma_escape_str_append(text@.take(i as int), seq![c]);
            assert(text@.take(i as int) + seq![c] =~= text@.take(i + 1));
            assert(seq![c].drop_first() =~= Seq::<char>::empty());
            assert(escape_str(Seq::<char>::empty()) == Seq::<char>::empty());
            assert(escape_char(c) + Seq::<char>::empty() =~= escape_char(c));
            assert(escape_str(seq![c]) == escape_char(seq![c][0]) + escape_str(
                seq![c].drop_first(),
            ));
            assert(escape_str(seq![c]) == escape_char(c));
            assert(out@ =~= old(out)@ + escape_str(text@.take(i + 1)));
        }
        i = i + 1;
    }
    proof {
        assert(text@.take(len as int) =~= text@);
    }
}

/// Splitting a text splits its stored form.
proof fn lemma_escape_str_append(a: Seq<char>, b: Seq<char>)
    ensures
        escape_str(a + b) == escape_str(a) + escape_str(b),
    decreases a.len(),
{
    if a.len() == 0 {
        assert(a + b =~= b);
        assert(escape_str(a) + escape_str(b) =~= escape_str(b));
    } else {
        lemma_escape_str_append(a.drop_first(), b);
        assert((a + b).drop_first() =~= a.drop_first() + b);
        assert(escape_char(a[0]) + (escape_str(a.drop_first()) + escape_str(b)) =~= (escape_char(
            a[0],
        ) + escape_str(a.drop_first())) + escape_str(b));
    }
}

/// Appends one stored item, indent included.
#[verifier::rlimit(50)]
fn push_item(out: &mut Vec<char>, t: &Todo)
    ensures
        final(out)@ == old(out)@ + encode_item(t@),
{
    let ghost pre = out@;
    out.push(' ');
    out.push(' ');
    out.push('{');
    out.push('\n');
    out.push(' ');
    out.push(' ');
    out.push(' ');
    out.push(' ');
    out.push('"');
    out.push('t');
    out.push('e');
    out.push('x');
    out.push('t');
    out.push('"');
    out.push(':');
    out.push(' ');
    out.push('"');
    push_escaped_str(out, t.text.as_str());
    out.push('"');
    out.push(',');
    out.push('\n');
    out.push(' ');
    out.push(' ');
    out.push(' ');
    out.push(' ');
    out.push('"');
    out.push('d');
    out.push('o');
    out.push('n');
    out.push('e');
    out.push('"');
    out.push(':');
    out.push(' ');
    if t.done {
        out.push('t');
        out.push('r');
        out.push('u');
        out.push('e');
    } else {
        out.push('f');
        out.push('a');
        out.push('l');
        out.push('s');
        out.push('e');
    }
    out.push('\n');
    out.push(' ');
    out.push(' ');
    out.push('}');
    proof {
        assert(out@ =~= pre + encode_item(t@));
    }
}

/// When an item is appended to a non-empty list, its stored items grow
/// by a separator and the new item.
proof fn lemma_encode_items_snoc(l: Seq<TodoView>, t: TodoView)
    requires
        l.len() > 0,
    ensures
        encode_items(l.push(t)) == encode_items(l) + seq![',', '\n'] + encode_item(t),
    decreases l.len(),
{
    if l.len() == 1 {
        assert(l.push(t).drop_first() =~= seq![t]);
        assert(encode_items(seq![t]) == encode_item(t));
        assert(l.push(t)[0] == l[0]);
        assert(encode_items(l.push(t)) == encode_item(l[0]) + seq![',', '\n'] + encode_item(t));
        assert(encode_items(l) == encode_item(l[0]));
    } else {
        lemma_encode_items_snoc(l.drop_first(), t);
        assert(l.push(t).drop_first() =~= l.drop_first().push(t));
        assert(l.push(t)[0] == l[0]);
        assert(encode_item(l[0]) + seq![',', '\n'] + (encode_items(l.drop_first()) + seq![',', '\n']
            + encode_item(t)) =~= (encode_item(l[0]) + seq![',', '\n'] + encode_items(
            l.drop_first(),
        )) + seq![',', '\n'] + encode_item(t));
    }
}

/// Renders a list in its stored textual form.
pub fn to_json(todos: &Vec<Todo>) -> (s: String)
    ensures
        s@ == encode_list(todos.deep_view()),
{
    let mut out: Vec<char> = Vec::new();
    out.push('[');
    if todos.len() == 0 {
        out.push(']');
        proof {
            assert(out@ =~= encode_list(todos.deep_view()));
        }
        return chars_to_string(&out);
    }
    out.push('\n');
    let ghost head = out@;
    push_item(&mut out, &todos[0]);
    proof {
        assert(todos.deep_view().take(1) =~= seq![todos.deep_view()[0]]);
        assert(encode_items(todos.deep_view().take(1)) == encode_item(todos.deep_view()[0]));
    }
    let len = todos.len();
    let mut i: usize = 1;
    while i < len
        invariant
            1 <= i <= len,
            len == todos@.len(),
            head == seq!['[', '\n'],
            out@ == head + encode_items(todos.deep_view().take(i as int)),
        decreases len - i,
    {
        out.push(',');
        out.push('\n');
        push_item(&mut out, &todos[i]);
        proof {
            let ghost l = todos.deep_view();
            lemma_encode_items_snoc(l.take(i as int), l[i as int]);
            assert(l.take(i as int).push(l[i as int]) =~= l.take(i + 1));
            assert(out@ =~= head + (encode_items(l.take(i as int)) + seq![',', '\n'] + encode_item(
                l[i as int],
            )));
        }
        i = i + 1;
    }
    out.push('\n');
    out.push(']');
    proof {
        assert(todos.deep_view().take(len as int) =~= todos.deep_view());
        assert(out@ =~= encode_list(todos.deep_view()));
    }
    chars_to_string(&out)
}

// ---------------------------------------------------------------------
// Reading, the mathematical side.
//
// The parser accepts what the writer produces and a little more: any
// amount of blank space between tokens, the two members in either
// order, and any of the standard string escapes. Anything else is
// malformed.
// ---------------------------------------------------------------------
/// Whether `c` is blank space between tokens.
pub open spec fn is_ws(c: char) -> bool {
    c == ' ' || c == '\t' || c == '\n' || c == '\r'
}

/// The input with leading blank space dropped.
pub open spec fn skip_ws(s: Seq<char>) -> Seq<char>
    decreases s.len(),
{
    if s.len() > 0 && is_ws(s[0]) {
        skip_ws(s.drop_first())
    } else {
        s
    }
}

/// The value of a hexadecimal digit, upper or lower case.
pub open spec fn hex_val(c: char) -> Option<nat> {
    let u = c as u32;
    if 0x30 <= u <= 0x39 {
        Some((u - 0x30) as nat)
    } else if 0x61 <= u <= 0x66 {
        Some((u - 0x61 + 10) as nat)
    } else if 0x41 <= u <= 0x46 {
        Some((u - 0x41 + 10) as nat)
    } else {
        None
    }
}

/// The character a short escape stands for.
pub open spec fn unescape_char(e: char) -> Option<char> {
    if e == '"' {
        Some('"')
    } else if e == '\\' {
        Some('\\')
    } else if e == '/' {
        Some('/')
    } else if e == 'b' {
        Some('\u{8}')
    } else if e == 'f' {
        Some('\u{c}')
    } else if e == 'n' {
        Some('\n')
    } else if e == 'r' {
        Some('\r')
    } else if e == 't' {
        Some('\t')
    } else {
        None
    }
}

/// Puts one decoded character in front of a parse's text.
pub open spec fn cons_char(c: char, r: Option<(Seq<char>, Seq<char>)>) -> Option<(Seq<char>, Seq<
    char,
>)> {
    match r {
        Some((t, rest)) => Some((seq![c] + t, rest)),
        None => None,
    }
}

/// Reads a quoted string from after its opening quote: the decoded text
/// and what follows the closing quote. Raw control characters, unknown
/// escapes, and `\u` escapes naming a surrogate are malformed.
pub open spec fn parse_string_body(s: Seq<char>) -> Option<(Seq<char>, Seq<char>)>
    decreases s.len(),
{
    if s.len() == 0 {
        None
    } else if s[0] == '"' {
        Some((Seq::empty(), s.drop_first()))
    } else if s[0] == '\\' {
        if s.len() < 2 {
            None
        } else if s[1] == 'u' {
            if s.len() < 6 {
                None
            } else {
                match (hex_val(s[2]), hex_val(s[3]), hex_val(s[4]), hex_val(s[5])) {
                    (Some(h0), Some(h1), Some(h2), Some(h3)) => {
                        let u = (h0 * 4096 + h1 * 256 + h2 * 16 + h3) as u32;
                        if u < 0xD800 || u >= 0xE000 {
                            cons_char(u as char, parse_string_body(s.skip(6)))
                        } else {
                            None
                        }
                    },
                    _ => None,
                }
            }
        } else {
            match unescape_char(s[1]) {
                Some(c) => cons_char(c, parse_string_body(s.skip(2))),
                None => None,
            }
        }
    } else if (s[0] as u32) < 0x20 {
        None
    } else {
        cons_char(s[0], parse_string_body(s.drop_first()))
    }
}

/// Reads a done-flag.
pub open spec fn parse_bool(s: Seq<char>) -> Option<(bool, Seq<char>)> {
    if s.len() >= 4 && s[0] == 't' && s[1] == 'r' && s[2] == 'u' && s[3] == 'e' {
        Some((true, s.skip(4)))
    } else if s.len() >= 5 && s[0] == 'f' && s[1] == 'a' && s[2] == 'l' && s[3] == 's' && s[4]
        == 'e' {
        Some((false, s.skip(5)))
    } else {
        None
    }
}

/// One member of a stored item: its text or its done-flag.
pub enum MemberValue {
    TextMember(Seq<char>),
    DoneMember(bool),
}

/// Reads one `"key": value` member; only the two known keys are
/// accepted, each with a value of its kind.
pub open spec fn parse_member(s: Seq<char>) -> Option<(MemberValue, Seq<char>)> {
    if s.len() == 0 || s[0] != '"' {
        None
    } else {
        match parse_string_body(s.drop_first()) {
            Some((key, r1)) => {
                let r2 = skip_ws(r1);
                if r2.len() == 0 || r2[0] != ':' {
                    None
                } else {
                    let r3 = skip_ws(r2.drop_first());
                    if key == seq!['t', 'e', 'x', 't'] {
                        if r3.len() == 0 || r3[0] != '"' {
                            None
                        } else {
                            match parse_string_body(r3.drop_first()) {
                                Some((t, r4)) => Some((MemberValue::TextMember(t), r4)),
                                None => None,
                            }
                        }
                    } else if key == seq!['d', 'o', 'n', 'e'] {
                        match parse_bool(r3) {
                            Some((b, r4)) => Some((MemberValue::DoneMember(b), r4)),
                            None => None,
                        }
                    } else {
                        None
                    }
                }
            },
            None => None,
        }
    }
}

/// An item from its two members, which must be one text and one
/// done-flag, in either order.
pub open spec fn combine_members(m1: MemberValue, m2: MemberValue) -> Option<TodoView> {
    match (m1, m2) {
        (MemberValue::TextMember(t), MemberValue::DoneMember(b)) => Some(
            TodoView { text: t, done: b },
        ),
        (MemberValue::DoneMember(b), MemberValue::TextMember(t)) => Some(
            TodoView { text: t, done: b },
        ),
        _ => None,
    }
}

/// Reads one stored item from its opening brace: exactly two members
/// between the braces, a comma between them.
pub open spec fn parse_item(s: Seq<char>) -> Option<(TodoView, Seq<char>)> {
    if s.len() == 0 || s[0] != '{' {
        None
    } else {
        match parse_member(skip_ws(s.drop_first())) {
            Some((m1, r1)) => {
                let r2 = skip_ws(r1);
                if r2.len() == 0 || r2[0] != ',' {
                    None
                } else {
                    match parse_member(skip_ws(r2.drop_first())) {
                        Some((m2, r3)) => {
                            let r4 = skip_ws(r3);
                            if r4.len() == 0 || r4[0] != '}' {
                                None
                            } else {
                                match combine_members(m1, m2) {
                                    Some(t) => Some((t, r4.drop_first())),
                                    None => None,
                                }
                            }
                        },
                        None => None,
                    }
                }
            },
            None => None,
        }
    }
}

/// Dropping blank space never lengthens the input.
proof fn lemma_skip_ws_len(s: Seq<char>)
    ensures
        skip_ws(s).len() <= s.len(),
    decreases s.len(),
{
    if s.len() > 0 && is_ws(s[0]) {
        lemma_skip_ws_len(s.drop_first());
    }
}

/// A parsed string consumes at least its closing quote.
proof fn lemma_parse_string_shrinks(s: Seq<char>)
    ensures
        match parse_string_body(s) {
            Some((t, r)) => r.len() < s.len(),
            None => true,
        },
    decreases s.len(),
{
    if s.len() == 0 {
    } else if s[0] == '"' {
    } else if s[0] == '\\' {
        if s.len() >= 6 {
            lemma_parse_string_shrinks(s.skip(6));
        }
        if s.len() >= 2 {
            lemma_parse_string_shrinks(s.skip(2));
        }
    } else {
        lemma_parse_string_shrinks(s.drop_first());
    }
}

/// A parsed member consumes at least one character.
proof fn lemma_parse_member_shrinks(s: Seq<char>)
    ensures
        match parse_member(s) {
            Some((m, r)) => r.len() < s.len(),
            None => true,
        },
{
    if s.len() > 0 && s[0] == '"' {
        lemma_parse_string_shrinks(s.drop_first());
        match parse_string_body(s.drop_first()) {
            Some((key, r1)) => {
                lemma_skip_ws_len(r1);
                let r2 = skip_ws(r1);
                if r2.len() > 0 && r2[0] == ':' {
                    lemma_skip_ws_len(r2.drop_first());
                    let r3 = skip_ws(r2.drop_first());
                    if r3.len() > 0 && r3[0] == '"' {
                        lemma_parse_string_shrinks(r3.drop_first());
                    }
                }
            },
            None => {},
        }
    }
}

/// A parsed item consumes at least its braces.
proof fn lemma_parse_item_shrinks(s: Seq<char>)
    ensures
        match parse_item(s) {
            Some((t, r)) => r.len() < s.len(),
            None => true,
        },
{
    if s.len() > 0 && s[0] == '{' {
        lemma_skip_ws_len(s.drop_first());
        lemma_parse_member_shrinks(skip_ws(s.drop_first()));
        match parse_member(skip_ws(s.drop_first())) {
            Some((m1, r1)) => {
                lemma_skip_ws_len(r1);
                let r2 = skip_ws(r1);
                if r2.len() > 0 && r2[0] == ',' {
                    lemma_skip_ws_len(r2.drop_first());
                    lemma_parse_member_shrinks(skip_ws(r2.drop_first()));
                    match parse_member(skip_ws(r2.drop_first())) {
                        Some((m2, r3)) => {
                            lemma_skip_ws_len(r3);
                        },
                        None => {},
                    }
                }
            },
            None => {},
        }
    }
}

/// Reads the items of a non-empty stored list, from the first item's
/// brace through the closing bracket of the list.
pub open spec fn parse_items(s: Seq<char>) -> Option<(Seq<TodoView>, Seq<char>)>
    decreases s.len(),
    via parse_items_dec
{
    match parse_item(s) {
        Some((t, r1)) => {
            let r2 = skip_ws(r1);
            if r2.len() == 0 {
                None
            } else if r2[0] == ']' {
                Some((seq![t], r2.drop_first()))
            } else if r2[0] == ',' {
                match parse_items(skip_ws(r2.drop_first())) {
                    Some((l, r3)) => Some((seq![t] + l, r3)),
                    None => None,
                }
            } else {
                None
            }
        },
        None => None,
    }
}

/// Each item of a list is read from strictly later input.
#[via_fn]
proof fn parse_items_dec(s: Seq<char>) {
    lemma_parse_item_shrinks(s);
    match parse_item(s) {
        Some((t, r1)) => {
            lemma_skip_ws_len(r1);
            let r2 = skip_ws(r1);
            if r2.len() > 0 && r2[0] == ',' {
                lemma_skip_ws_len(r2.drop_first());
            }
        },
        None => {},
    }
}

/// Reads a whole stored list: a bracketed, possibly empty sequence of
/// items with nothing but blank space after it.
pub open spec fn parse_list(s: Seq<char>) -> Option<Seq<TodoView>> {
    let r0 = skip_ws(s);
    if r0.len() == 0 || r0[0] != '[' {
        None
    } else {
        let r1 = skip_ws(r0.drop_first());
        if r1.len() > 0 && r1[0] == ']' {
            if skip_ws(r1.drop_first()).len() == 0 {
                Some(Seq::empty())
            } else {
                None
            }
        } else {
            match parse_items(r1) {
                Some((l, r2)) => if skip_ws(r2).len() == 0 {
                    Some(l)
                } else {
                    None
                },
                None => None,
            }
        }
    }
}

// ---------------------------------------------------------------------
// Reading, the executable side. Each function walks the characters by
// index and returns exactly what its mathematical counterpart says of
// the remaining input.
// ---------------------------------------------------------------------
/// Relies on `char::from_u32`: it returns the character of the given
/// code point, and nothing for surrogates and values past the last code
/// point.
pub assume_specification[ char::from_u32 ](u: u32) -> (r: Option<char>)
    ensures
        (r is Some) == (u < 0xD800 || (0xE000 <= u && u <= 0x10FFFF)),
        match r {
            Some(c) => c as u32 == u,
            None => true,
        },
;

/// Whether `c` is blank space between tokens.
fn is_ws_exec(c: char) -> (r: bool)
    ensures
        r == is_ws(c),
{
    c == ' ' || c == '\t' || c == '\n' || c == '\r'
}

/// The first position at or after `i` that holds no blank space.
fn skip_ws_exec(v: &Vec<char>, i: usize) -> (r: usize)
    requires
        i <= v@.len(),
    ensures
        i <= r <= v@.len(),
        v@.skip(r as int) == skip_ws(v@.skip(i as int)),
{
    let len = v.len();
    let mut j: usize = i;
    while j < len && is_ws_exec(v[j])
        invariant
            i <= j <= len,
            len == v@.len(),
            skip_ws(v@.skip(i as int)) == skip_ws(v@.skip(j as int)),
        decreases len - j,
    {
        proof {
            assert(v@.skip(j as int).drop_first() =~= v@.skip(j + 1));
        }
        j = j + 1;
    }
    proof {
        if j == len {
            assert(v@.skip(j as int).len() == 0);
        }
        assert(skip_ws(v@.skip(j as int)) == v@.skip(j as int));
    }
    j
}

/// The value of a hexadecimal digit, if `c` is one.
fn hex_val_exec(c: char) -> (r: Option<u32>)
    ensures
        match r {
            Some(h) => h < 16 && hex_val(c) == Some(h as nat),
            None => hex_val(c) is None,
        },
{
    let u = c as u32;
    if 0x30 <= u && u <= 0x39 {
        Some(u - 0x30)
    } else if 0x61 <= u && u <= 0x66 {
        Some(u - 0x61 + 10)
    } else if 0x41 <= u && u <= 0x46 {
        Some(u - 0x41 + 10)
    } else {
        None
    }
}

/// The character a short escape stands for, if the escape is known.
fn unescape_exec(e: char) -> (r: Option<char>)
    ensures
        r == unescape_char(e),
{
    if e == '"' {
        Some('"')
    } else if e == '\\' {
        Some('\\')
    } else if e == '/' {
        Some('/')
    } else if e == 'b' {
        Some('\u{8}')
    } else if e == 'f' {
        Some('\u{c}')
    } else if e == 'n' {
        Some('\n')
    } else if e == 'r' {
        Some('\r')
    } else if e == 't' {
        Some('\t')
    } else {
        None
    }
}

/// Reads a quoted string starting after its opening quote at `i`: the
/// decoded text and the position after the closing quote.
fn parse_string_exec(v: &Vec<char>, i: usize) -> (r: Option<(Vec<char>, usize)>)
    requires
        i <= v@.len(),
    ensures
        match r {
            Some((t, j)) => i <= j <= v@.len() && parse_string_body(v@.skip(i as int)) == Some(
                (t@, v@.skip(j as int)),
            ),
            None => parse_string_body(v@.skip(i as int)) is None,
        },
{
    let len = v.len();
    let mut j: usize = i;
    let mut t: Vec<char> = Vec::new();
    loop
        invariant_except_break
            i <= j <= len,
            len == v@.len(),
            match parse_string_body(v@.skip(j as int)) {
                Some((tt, rest)) => parse_string_body(v@.skip(i as int)) == Some((t@ + tt, rest)),
                None => parse_string_body(v@.skip(i as int)) is None,
            },
        ensures
            match parse_string_body(v@.skip(i as int)) {
                Some((tt, rest)) => false,
                None => true,
            },
        decreases len - j,
    {
        let ghost s = v@.skip(j as int);
        if j >= len {
            break ;
        }
        let c = v[j];
        proof {
            assert(s[0] == c);
        }
        if c == '"' {
            proof {
                assert(s.drop_first() =~= v@.skip(j + 1));
                assert(t@ + Seq::<char>::empty() =~= t@);
            }
            return Some((t, j + 1));
        } else if c == '\\' {
            if len - j < 2 {
                proof {
                    assert(s.len() < 2);
                }
                break ;
            }
            let e = v[j + 1];
            proof {
                assert(s[1] == e);
            }
            if e == 'u' {
                if len - j < 6 {
                    proof {
                        assert(s.len() < 6);
                    }
                    break ;
                }
                let h0 = hex_val_exec(v[j + 2]);
                let h1 = hex_val_exec(v[j + 3]);
                let h2 = hex_val_exec(v[j + 4]);
                let h3 = hex_val_exec(v[j + 5]);
                proof {
                    assert(s[2] == v@[j + 2] && s[3] == v@[j + 3] && s[4] == v@[j + 4] && s[5]
                        == v@[j + 5]);
                }
                match (h0, h1, h2, h3) {
                    (Some(h0), Some(h1), Some(h2), Some(h3)) => {
                        let val: u32 = h0 * 4096 + h1 * 256 + h2 * 16 + h3;
                        if 0xD800 <= val && val < 0xE000 {
                            break ;
                        }
                        let c2 = char::from_u32(val).unwrap();
                        proof {
                            vstd::utf8::char_u32_cast(c2, val);
                            assert(s.skip(6) =~= v@.skip(j + 6));
                            lemma_cons_shift(t@, c2, v@.skip(i as int), v@.skip(j + 6));
                        }
                        t.push(c2);
                        j = j + 6;
                    },
                    _ => {
                        break ;
                    },
                }
            } else {
                match unescape_exec(e) {
                    Some(c2) => {
                        proof {
                            assert(s.skip(2) =~= v@.skip(j + 2));
                            lemma_cons_shift(t@, c2, v@.skip(i as int), v@.skip(j + 2));
                        }
                        t.push(c2);
                        j = j + 2;
                    },
                    None => {
                        break ;
                    },
                }
            }
        } else if (c as u32) < 0x20 {
            break ;
        } else {
            proof {
                assert(s.drop_first() =~= v@.skip(j + 1));
                lemma_cons_shift(t@, c, v@.skip(i as int), v@.skip(j + 1));
            }
            t.push(c);
            j = j + 1;
        }
    }
    None
}

/// When a whole parse is a prefix plus a parse of later input, putting
/// one more decoded character after the prefix keeps that shape.
proof fn lemma_cons_shift(pre: Seq<char>, c: char, whole: Seq<char>, rest_in: Seq<char>)
    requires
        match cons_char(c, parse_string_body(rest_in)) {
            Some((tt, rest)) => parse_string_body(whole) == Some((pre + tt, rest)),
            None => parse_string_body(whole) is None,
        },
    ensures
        match parse_string_body(rest_in) {
            Some((tt, rest)) => parse_string_body(whole) == Some((pre.push(c) + tt, rest)),
            None => parse_string_body(whole) is None,
        },
{
    match parse_string_body(rest_in) {
        Some((tt, rest)) => {
            assert(pre + (seq![c] + tt) =~= pre.push(c) + tt);
        },
        None => {},
    }
}

/// Reads a done-flag at `i`.
fn parse_bool_exec(v: &Vec<char>, i: usize) -> (r: Option<(bool, usize)>)
    requires
        i <= v@.len(),
    ensures
        match r {
            Some((b, j)) => i <= j <= v@.len() && parse_bool(v@.skip(i as int)) == Some(
                (b, v@.skip(j as int)),
            ),
            None => parse_bool(v@.skip(i as int)) is None,
        },
{
    let len = v.len();
    let ghost s = v@.skip(i as int);
    if len - i >= 4 && v[i] == 't' && v[i + 1] == 'r' && v[i + 2] == 'u' && v[i + 3] == 'e' {
        proof {
            assert(s.skip(4) =~= v@.skip(i + 4));
        }
        Some((true, i + 4))
    } else if len - i >= 5 && v[i] == 'f' && v[i + 1] == 'a' && v[i + 2] == 'l' && v[i + 3] == 's'
        && v[i + 4] == 'e' {
        proof {
            assert(s.skip(5) =~= v@.skip(i + 5));
        }
        Some((false, i + 5))
    } else {
        None
    }
}

/// One member of a stored item, as read.
enum Member {
    Text(Vec<char>),
    Done(bool),
}

impl View for Member {
    type V = MemberValue;

    closed spec fn view(&self) -> MemberValue {
        match self {
            Member::Text(t) => MemberValue::TextMember(t@),
            Member::Done(b) => MemberValue::DoneMember(*b),
        }
    }
}

/// Reads one `"key": value` member at `i`.
fn parse_member_exec(v: &Vec<char>, i: usize) -> (r: Option<(Member, usize)>)
    requires
        i <= v@.len(),
    ensures
        match r {
            Some((m, j)) => i <= j <= v@.len() && parse_member(v@.skip(i as int)) == Some(
                (m@, v@.skip(j as int)),
            ),
            None => parse_member(v@.skip(i as int)) is None,
        },
{
    let len = v.len();
    let ghost s = v@.skip(i as int);
    if i >= len || v[i] != '"' {
        return None;
    }
    proof {
        assert(s[0] == '"');
        assert(s.drop_first() =~= v@.skip(i + 1));
    }
    let key = match parse_string_exec(v, i + 1) {
        Some(k) => k,
        None => {
            return None;
        },
    };
    let (key_chars, k1) = key;
    let r2 = skip_ws_exec(v, k1);
    if r2 >= len || v[r2] != ':' {
        return None;
    }
    proof {
        assert(v@.skip(r2 as int)[0] == ':');
        assert(v@.skip(r2 as int).drop_first() =~= v@.skip(r2 + 1));
    }
    let r3 = skip_ws_exec(v, r2 + 1);
    let is_text = key_chars.len() == 4 && key_chars[0] == 't' && key_chars[1] == 'e'
        && key_chars[2] == 'x' && key_chars[3] == 't';
    let is_done = key_chars.len() == 4 && key_chars[0] == 'd' && key_chars[1] == 'o'
        && key_chars[2] == 'n' && key_chars[3] == 'e';
    proof {
        assert(is_text == (key_chars@ =~= seq!['t', 'e', 'x', 't']));
        assert(is_done == (key_chars@ =~= seq!['d', 'o', 'n', 'e']));
    }
    if is_text {
        if r3 >= len || v[r3] != '"' {
            return None;
        }
        proof {
            assert(v@.skip(r3 as int)[0] == '"');
            assert(v@.skip(r3 as int).drop_first() =~= v@.skip(r3 + 1));
        }
        match parse_string_exec(v, r3 + 1) {
            Some((text, j)) => Some((Member::Text(text), j)),
            None => None,
        }
    } else if is_done {
        match parse_bool_exec(v, r3) {
            Some((b, j)) => Some((Member::Done(b), j)),
            None => None,
        }
    } else {
        None
    }
}

/// Reads one stored item whose opening brace stands at `i`.
fn parse_item_exec(v: &Vec<char>, i: usize) -> (r: Option<(Todo, usize)>)
    requires
        i <= v@.len(),
    ensures
        match r {
            Some((t, j)) => i < j <= v@.len() && parse_item(v@.skip(i as int)) == Some(
                (t@, v@.skip(j as int)),
            ),
            None => parse_item(v@.skip(i as int)) is None,
        },
{
    let len = v.len();
    let ghost s = v@.skip(i as int);
    if i >= len || v[i] != '{' {
        return None;
    }
    proof {
        assert(s[0] == '{');
        assert(s.drop_first() =~= v@.skip(i + 1));
    }
    let p1 = skip_ws_exec(v, i + 1);
    let (m1, q1) = match parse_member_exec(v, p1) {
        Some(m) => m,
        None => {
            return None;
        },
    };
    let r2 = skip_ws_exec(v, q1);
    if r2 >= len || v[r2] != ',' {
        return None;
    }
    proof {
        assert(v@.skip(r2 as int)[0] == ',');
        assert(v@.skip(r2 as int).drop_first() =~= v@.skip(r2 + 1));
    }
    let p2 = skip_ws_exec(v, r2 + 1);
    let (m2, q2) = match parse_member_exec(v, p2) {
        Some(m) => m,
        None => {
            return None;
        },
    };
    let r4 = skip_ws_exec(v, q2);
    if r4 >= len || v[r4] != '}' {
        return None;
    }
    proof {
        assert(v@.skip(r4 as int)[0] == '}');
        assert(v@.skip(r4 as int).drop_first() =~= v@.skip(r4 + 1));
    }
    match (m1, m2) {
        (Member::Text(t), Member::Done(b)) => Some(
            (Todo { text: chars_to_string(&t), done: b }, r4 + 1),
        ),
        (Member::Done(b), Member::Text(t)) => Some(
            (Todo { text: chars_to_string(&t), done: b }, r4 + 1),
        ),
        _ => None,
    }
}

/// Reads the items of a non-empty stored list, the first item's brace
/// standing at `i`, through the list's closing bracket.
fn parse_items_exec(v: &Vec<char>, i: usize) -> (r: Option<(Vec<Todo>, usize)>)
    requires
        i <= v@.len(),
    ensures
        match r {
            Some((l, j)) => i <= j <= v@.len() && parse_items(v@.skip(i as int)) == Some(
                (l.deep_view(), v@.skip(j as int)),
            ),
            None => parse_items(v@.skip(i as int)) is None,
        },
{
    let len = v.len();
    let mut cur: usize = i;
    let mut acc: Vec<Todo> = Vec::new();
    loop
        invariant_except_break
            i <= cur <= len,
            len == v@.len(),
            match parse_items(v@.skip(cur as int)) {
                Some((l, rest)) => parse_items(v@.skip(i as int)) == Some(
                    (acc.deep_view() + l, rest),
                ),
                None => parse_items(v@.skip(i as int)) is None,
            },
        ensures
            parse_items(v@.skip(i as int)) is None,
        decreases len - cur,
    {
        let ghost s = v@.skip(cur as int);
        let (t, j1) = match parse_item_exec(v, cur) {
            Some(x) => x,
            None => {
                break ;
            },
        };
        let j2 = skip_ws_exec(v, j1);
        if j2 >= len {
            break ;
        }
        let c = v[j2];
        proof {
            assert(skip_ws(v@.skip(j1 as int))[0] == c);
        }
        if c == ']' {
            proof {
                assert(v@.skip(j2 as int).drop_first() =~= v@.skip(j2 + 1));
                assert(acc.deep_view().push(t@) =~= acc.deep_view() + seq![t@]);
            }
            acc.push(t);
            return Some((acc, j2 + 1));
        } else if c == ',' {
            proof {
                assert(v@.skip(j2 as int).drop_first() =~= v@.skip(j2 + 1));
            }
            let next = skip_ws_exec(v, j2 + 1);
            proof {
                let ghost l0 = acc.deep_view();
                assert(acc.deep_view().push(t@) =~= acc.deep_view() + seq![t@]);
                match parse_items(v@.skip(next as int)) {
                    Some((l, rest)) => {
                        assert((l0 + seq![t@]) + l =~= l0 + (seq![t@] + l));
                    },
                    None => {},
                }
            }
            acc.push(t);
            cur = next;
        } else {
            break ;
        }
    }
    None
}

/// Reads a whole stored list, turning malformed text into
/// [`TodoError::DataCorrupt`].
pub fn from_json(s: &str) -> (r: Result<Vec<Todo>, TodoError>)
    ensures
        match r {
            Ok(l) => parse_list(s@) == Some(l.deep_view()),
            Err(e) => parse_list(s@) is None && e == TodoError::DataCorrupt,
        },
{
    let v = str_to_chars(s);
    let len = v.len();
    proof {
        assert(v@.skip(0) =~= s@);
    }
    let r0 = skip_ws_exec(&v, 0);
    if r0 >= len || v[r0] != '[' {
        return Err(TodoError::DataCorrupt);
    }
    proof {
        assert(v@.skip(r0 as int)[0] == '[');
        assert(v@.skip(r0 as int).drop_first() =~= v@.skip(r0 + 1));
    }
    let r1 = skip_ws_exec(&v, r0 + 1);
    if r1 < len && v[r1] == ']' {
        proof {
            assert(v@.skip(r1 as int)[0] == ']');
            assert(v@.skip(r1 as int).drop_first() =~= v@.skip(r1 + 1));
        }
        let r2 = skip_ws_exec(&v, r1 + 1);
        if r2 == len {
            let out: Vec<Todo> = Vec::new();
            proof {
                assert(out.deep_view() =~= Seq::<TodoView>::empty());
            }
            return Ok(out);
        }
        return Err(TodoError::DataCorrupt);
    }
    proof {
        if r1 < len {
            assert(v@.skip(r1 as int)[0] != ']');
        }
    }
    match parse_items_exec(&v, r1) {
        Some((l, r2)) => {
            let r3 = skip_ws_exec(&v, r2);
            if r3 == len {
                Ok(l)
            } else {
                Err(TodoError::DataCorrupt)
            }
        },
        None => Err(TodoError::DataCorrupt),
    }
}

// ---------------------------------------------------------------------
// The round trip: reading back what was written yields the same list.
// ---------------------------------------------------------------------
/// Skipping blank space consumes exactly a fully blank prefix.
proof fn lemma_skip_ws_prefix(ws: Seq<char>, s: Seq<char>)
    requires
        forall|j: int| 0 <= j < ws.len() ==> is_ws(#[trigger] ws[j]),
        s.len() == 0 || !is_ws(s[0]),
    ensures
        skip_ws(ws + s) == s,
    decreases ws.len(),
{
    if ws.len() == 0 {
        assert(ws + s =~= s);
    } else {
        lemma_skip_ws_prefix(ws.drop_first(), s);
        assert((ws + s).drop_first() =~= ws.drop_first() + s);
    }
}

/// Blank space stops before anything that is not blank.
proof fn lemma_skip_ws_noop(s: Seq<char>)
    requires
        s.len() == 0 || !is_ws(s[0]),
    ensures
        skip_ws(s) == s,
{
}

/// A hexadecimal digit written in lower case reads back as its value.
proof fn lemma_hex_digit_val(d: nat)
    requires
        d < 16,
    ensures
        hex_val(hex_digit_char(d)) == Some(d),
{
}

/// Text without quotes, backslashes or control characters is stored as
/// itself.
proof fn lemma_escape_plain(s: Seq<char>)
    requires
        forall|j: int|
            0 <= j < s.len() ==> (#[trigger] s[j]) != '"' && s[j] != '\\' && (s[j] as u32) >= 0x20,
    ensures
        escape_str(s) == s,
    decreases s.len(),
{
    if s.len() > 0 {
        lemma_escape_plain(s.drop_first());
        assert(escape_char(s[0]) =~= seq![s[0]]);
        assert(seq![s[0]] + s.drop_first() =~= s);
    }
}

/// A stored text reads back as itself: the decoded string is the text
/// that was escaped, and reading stops right after the closing quote.
#[verifier::rlimit(50)]
proof fn lemma_parse_escape_round(text: Seq<char>, rest: Seq<char>)
    ensures
        parse_string_body(escape_str(text) + seq!['"'] + rest) == Some((text, rest)),
    decreases text.len(),
{
    let s = escape_str(text) + seq!['"'] + rest;
    if text.len() == 0 {
        assert(escape_str(text) =~= Seq::<char>::empty());
        assert(s =~= seq!['"'] + rest);
        assert(s[0] == '"');
        assert(s.drop_first() =~= rest);
        assert(Seq::<char>::empty() =~= text);
    } else {
        let c = text[0];
        let t2 = text.drop_first();
        lemma_parse_escape_round(t2, rest);
        let inner = escape_str(t2) + seq!['"'] + rest;
        assert(escape_str(text) == escape_char(c) + escape_str(t2));
        assert(s =~= escape_char(c) + inner);
        assert(seq![c] + t2 =~= text);
        if c == '"' || c == '\\' || c == '\u{8}' || c == '\u{c}' || c == '\n' || c == '\r' || c
            == '\t' {
            assert(s[0] == '\\');
            assert(s.skip(2) =~= inner);
            assert(unescape_char(s[1]) == Some(c));
        } else if (c as u32) < 0x20 {
            let u = (c as u32) as nat;
            assert(s[0] == '\\' && s[1] == 'u' && s[2] == '0' && s[3] == '0');
            assert(s[4] == hex_digit_char(u / 16) && s[5] == hex_digit_char(u % 16));
            lemma_hex_digit_val(u / 16);
            lemma_hex_digit_val(u % 16);
            assert((u / 16) * 16 + u % 16 == u) by {
                vstd::arithmetic::div_mod::lemma_fundamental_div_mod(u as int, 16);
            }
            assert((0 * 4096 + 0 * 256 + (u / 16) * 16 + u % 16) as u32 == c as u32);
            vstd::utf8::char_u32_cast(c, c as u32);
            assert(s.skip(6) =~= inner);
        } else {
            assert(s[0] == c);
            assert(s.drop_first() =~= inner);
        }
    }
}

/// A stored done-flag reads back as itself.
proof fn lemma_parse_bool_round(b: bool, rest: Seq<char>)
    ensures
        parse_bool(bool_rep(b) + rest) == Some((b, rest)),
{
    let s = bool_rep(b) + rest;
    if b {
        assert(s[0] == 't' && s[1] == 'r' && s[2] == 'u' && s[3] == 'e');
        assert(s.skip(4) =~= rest);
    } else {
        assert(s[0] == 'f' && s[1] == 'a' && s[2] == 'l' && s[3] == 's' && s[4] == 'e');
        assert(s.skip(5) =~= rest);
    }
}

/// A stored `"text"` member reads back as that text.
#[verifier::rlimit(50)]
proof fn lemma_parse_member_text_round(text: Seq<char>, rest: Seq<char>)
    ensures
        parse_member(member_text_rep(text) + rest) == Some((MemberValue::TextMember(text), rest)),
{
    let key: Seq<char> = seq!['t', 'e', 'x', 't'];
    let s = member_text_rep(text) + rest;
    assert(s[0] == '"');
    let after_key: Seq<char> = seq![':', ' ', '"'] + escape_str(text) + seq!['"'] + rest;
    lemma_escape_plain(key);
    assert(s.drop_first() =~= escape_str(key) + seq!['"'] + after_key);
    lemma_parse_escape_round(key, after_key);
    lemma_skip_ws_noop(after_key);
    assert(after_key[0] == ':');
    let r3in: Seq<char> = seq!['"'] + escape_str(text) + seq!['"'] + rest;
    assert(after_key.drop_first() =~= seq![' '] + r3in);
    lemma_skip_ws_prefix(seq![' '], r3in);
    assert(r3in[0] == '"');
    assert(r3in.drop_first() =~= escape_str(text) + seq!['"'] + rest);
    lemma_parse_escape_round(text, rest);
}

/// A stored `"done"` member reads back as that flag.
#[verifier::rlimit(50)]
proof fn lemma_parse_member_done_round(b: bool, rest: Seq<char>)
    ensures
        parse_member(member_done_rep(b) + rest) == Some((MemberValue::DoneMember(b), rest)),
{
    let key: Seq<char> = seq!['d', 'o', 'n', 'e'];
    let s = member_done_rep(b) + rest;
    assert(s[0] == '"');
    let after_key: Seq<char> = seq![':', ' '] + bool_rep(b) + rest;
    lemma_escape_plain(key);
    assert(s.drop_first() =~= escape_str(key) + seq!['"'] + after_key);
    lemma_parse_escape_round(key, after_key);
    lemma_skip_ws_noop(after_key);
    assert(after_key[0] == ':');
    let r3in: Seq<char> = bool_rep(b) + rest;
    assert(after_key.drop_first() =~= seq![' '] + r3in);
    assert(!is_ws(r3in[0]));
    lemma_skip_ws_prefix(seq![' '], r3in);
    lemma_parse_bool_round(b, rest);
    assert(key != seq!['t', 'e', 'x', 't']);
}

/// A stored item, read from its opening brace, reads back as itself.
#[verifier::rlimit(50)]
proof fn lemma_parse_item_round(t: TodoView, rest: Seq<char>)
    ensures
        parse_item(item_core(t) + rest) == Some((t, rest)),
{
    let s = item_core(t) + rest;
    assert(s[0] == '{');
    let tail2: Seq<char> = seq!['\n', ' ', ' ', '}'] + rest;
    let m_done: Seq<char> = member_done_rep(t.done) + tail2;
    let mid: Seq<char> = seq![',', '\n', ' ', ' ', ' ', ' '] + m_done;
    let m_text: Seq<char> = member_text_rep(t.text) + mid;
    assert(s.drop_first() =~= seq!['\n', ' ', ' ', ' ', ' '] + m_text);
    assert(m_text[0] == '"');
    lemma_skip_ws_prefix(seq!['\n', ' ', ' ', ' ', ' '], m_text);
    lemma_parse_member_text_round(t.text, mid);
    lemma_skip_ws_noop(mid);
    assert(mid[0] == ',');
    assert(mid.drop_first() =~= seq!['\n', ' ', ' ', ' ', ' '] + m_done);
    assert(m_done[0] == '"');
    lemma_skip_ws_prefix(seq!['\n', ' ', ' ', ' ', ' '], m_done);
    lemma_parse_member_done_round(t.done, tail2);
    assert(tail2 =~= seq!['\n', ' ', ' '] + (seq!['}'] + rest));
    assert((seq!['}'] + rest)[0] == '}');
    lemma_skip_ws_prefix(seq!['\n', ' ', ' '], seq!['}'] + rest);
    assert((seq!['}'] + rest).drop_first() =~= rest);
    assert(combine_members(MemberValue::TextMember(t.text), MemberValue::DoneMember(t.done))
        == Some(TodoView { text: t.text, done: t.done }));
    assert(TodoView { text: t.text, done: t.done } == t);
}

/// The items of a non-empty list as the reader meets them: from the
/// first item's brace, each item indented after its separator, through
/// the closing bracket.
pub open spec fn items_from(l: Seq<TodoView>) -> Seq<char>
    decreases l.len(),
{
    if l.len() == 0 {
        Seq::empty()
    } else if l.len() == 1 {
        item_core(l[0]) + seq!['\n', ']']
    } else {
        item_core(l[0]) + (seq![',', '\n', ' ', ' '] + items_from(l.drop_first()))
    }
}

/// The items stream of a non-empty list starts at its first brace.
proof fn lemma_items_from_head(l: Seq<TodoView>)
    requires
        l.len() > 0,
    ensures
        items_from(l).len() > 0,
        items_from(l)[0] == '{',
{
}

/// Stored items read back as themselves, with reading ending right
/// after the list's closing bracket.
#[verifier::rlimit(50)]
proof fn lemma_parse_items_round(l: Seq<TodoView>, rest: Seq<char>)
    requires
        l.len() > 0,
    ensures
        parse_items(items_from(l) + rest) == Some((l, rest)),
    decreases l.len(),
{
    let s = items_from(l) + rest;
    if l.len() == 1 {
        let tail: Seq<char> = seq!['\n', ']'] + rest;
        assert(s =~= item_core(l[0]) + tail);
        lemma_parse_item_round(l[0], tail);
        assert(tail =~= seq!['\n'] + (seq![']'] + rest));
        assert((seq![']'] + rest)[0] == ']');
        lemma_skip_ws_prefix(seq!['\n'], seq![']'] + rest);
        assert((seq![']'] + rest).drop_first() =~= rest);
        assert(seq![l[0]] =~= l);
    } else {
        let l2 = l.drop_first();
        let tail: Seq<char> = seq![',', '\n', ' ', ' '] + items_from(l2) + rest;
        assert(s =~= item_core(l[0]) + tail);
        assert(tail =~= seq![',', '\n', ' ', ' '] + (items_from(l2) + rest));
        lemma_parse_item_round(l[0], tail);
        lemma_skip_ws_noop(tail);
        assert(tail[0] == ',');
        lemma_items_from_head(l2);
        assert((items_from(l2) + rest)[0] == '{');
        assert(tail.drop_first() =~= seq!['\n', ' ', ' '] + (items_from(l2) + rest));
        lemma_skip_ws_prefix(seq!['\n', ' ', ' '], items_from(l2) + rest);
        lemma_parse_items_round(l2, rest);
        assert(seq![l[0]] + l2 =~= l);
    }
}

/// The stored form of a non-empty list is its bracket, a line break,
/// the first item's indent, and the items stream.
#[verifier::rlimit(50)]
proof fn lemma_encode_items_shape(l: Seq<TodoView>)
    requires
        l.len() > 0,
    ensures
        encode_items(l) + seq!['\n', ']'] == seq![' ', ' '] + items_from(l),
    decreases l.len(),
{
    if l.len() == 1 {
        assert(encode_items(l) == encode_item(l[0]));
        assert((seq![' ', ' '] + item_core(l[0])) + seq!['\n', ']'] =~= seq![' ', ' '] + (item_core(
            l[0],
        ) + seq!['\n', ']']));
    } else {
        let l2 = l.drop_first();
        lemma_encode_items_shape(l2);
        assert((encode_item(l[0]) + seq![',', '\n'] + encode_items(l2)) + seq!['\n', ']']
            =~= encode_item(l[0]) + seq![',', '\n'] + (encode_items(l2) + seq!['\n', ']']));
        assert(encode_item(l[0]) + seq![',', '\n'] + (seq![' ', ' '] + items_from(l2)) =~= seq![
            ' ',
            ' ',
        ] + (item_core(l[0]) + (seq![',', '\n', ' ', ' '] + items_from(l2))));
    }
}

/// LAW: the storage round trip is the identity — reading back the
/// stored form of any list yields that list, text and done-flags alike,
/// in the same order.
#[verifier::rlimit(50)]
pub proof fn lemma_round_trip(l: Seq<TodoView>)
    ensures
        parse_list(encode_list(l)) == Some(l),
{
    if l.len() == 0 {
        let s = encode_list(l);
        assert(s == seq!['[', ']']);
        lemma_skip_ws_noop(s);
        assert(s.drop_first() =~= seq![']']);
        lemma_skip_ws_noop(seq![']']);
        assert(seq![']'].drop_first() =~= Seq::<char>::empty());
        lemma_skip_ws_noop(Seq::<char>::empty());
        assert(Seq::<TodoView>::empty() =~= l);
    } else {
        let s = encode_list(l);
        lemma_encode_items_shape(l);
        assert(s =~= seq!['[', '\n'] + (encode_items(l) + seq!['\n', ']']));
        assert(s == seq!['[', '\n'] + (seq![' ', ' '] + items_from(l)));
        assert(s =~= seq!['['] + (seq!['\n', ' ', ' '] + items_from(l)));
        lemma_skip_ws_noop(s);
        assert(s[0] == '[');
        assert(s.drop_first() =~= seq!['\n', ' ', ' '] + items_from(l));
        lemma_items_from_head(l);
        lemma_skip_ws_prefix(seq!['\n', ' ', ' '], items_from(l));
        assert(items_from(l)[0] == '{');
        lemma_parse_items_round(l, Seq::empty());
        assert(items_from(l) + Seq::<char>::empty() =~= items_from(l));
        lemma_skip_ws_noop(Seq::<char>::empty());
    }
}

} // verus!
