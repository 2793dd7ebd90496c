//! User commands: the command vocabulary, the line parser that splits user
//! input into a command word and comma-separated arguments, the help texts,
//! and the store-mutating command handlers. File and terminal work stays
//! with the caller: the handlers only decide and mutate, and report through
//! [`CommandOutcome`] what the caller should do next.

use vstd::prelude::*;
use crate::task::{Task, TaskList, TaskModel, toggle_at};
use crate::datetime::{Timestamp, parse_ts_shape, dval, is_digit_char};
use crate::textutil::{find_from, str_to_chars, chars_to_string, subvec, str_eq};
use crate::clock::now_or_default;

verus! {

/// ASCII lowercase folding, character by character.
pub open spec fn lower_char(c: char) -> char {
    if c == 'A' {
        'a'
    } else if c == 'B' {
        'b'
    } else if c == 'C' {
        'c'
    } else if c == 'D' {
        'd'
    } else if c == 'E' {
        'e'
    } else if c == 'F' {
        'f'
    } else if c == 'G' {
        'g'
    } else if c == 'H' {
        'h'
    } else if c == 'I' {
        'i'
    } else if c == 'J' {
        'j'
    } else if c == 'K' {
        'k'
    } else if c == 'L' {
        'l'
    } else if c == 'M' {
        'm'
    } else if c == 'N' {
        'n'
    } else if c == 'O' {
        'o'
    } else if c == 'P' {
        'p'
    } else if c == 'Q' {
        'q'
    } else if c == 'R' {
        'r'
    } else if c == 'S' {
        's'
    } else if c == 'T' {
        't'
    } else if c == 'U' {
        'u'
    } else if c == 'V' {
        'v'
    } else if c == 'W' {
        'w'
    } else if c == 'X' {
        'x'
    } else if c == 'Y' {
        'y'
    } else if c == 'Z' {
        'z'
    } else {
        c
    }
}

/// ASCII lowercase folding of a text.
pub open spec fn lower_of(s: Seq<char>) -> Seq<char> {
    s.map_values(|c: char| lower_char(c))
}

/// Executable ASCII lowercase of one character.
fn to_lower_char(c: char) -> (r: char)
    ensures
        r == lower_char(c),
{
    match c {
        'A' => 'a',
        'B' => 'b',
        'C' => 'c',
        'D' => 'd',
        'E' => 'e',
        'F' => 'f',
        'G' => 'g',
        'H' => 'h',
        'I' => 'i',
        'J' => 'j',
        'K' => 'k',
        'L' => 'l',
        'M' => 'm',
        'N' => 'n',
        'O' => 'o',
        'P' => 'p',
        'Q' => 'q',
        'R' => 'r',
        'S' => 's',
        'T' => 't',
        'U' => 'u',
        'V' => 'v',
        'W' => 'w',
        'X' => 'x',
        'Y' => 'y',
        'Z' => 'z',
        _ => c,
    }
}

/// The whitespace characters the command splitter recognizes.
pub open spec fn is_ws(c: char) -> bool {
    c == ' ' || c == '\t' || c == '\n' || c == '\r'
}

/// Position of the first whitespace character at or after `i`.
pub open spec fn find_ws_from(s: Seq<char>, i: int) -> Option<int>
    decreases s.len() - i,
{
    if i < 0 || i >= s.len() {
        None
    } else if is_ws(s[i]) {
        Some(i)
    } else {
        find_ws_from(s, i + 1)
    }
}

/// First position at or after `i` holding something other than whitespace.
pub open spec fn skip_ws(s: Seq<char>, i: int) -> int
    decreases s.len() - i,
{
    if 0 <= i < s.len() && is_ws(s[i]) {
        skip_ws(s, i + 1)
    } else {
        i
    }
}

/// Last position at or before `j` whose predecessor is not whitespace.
pub open spec fn rskip_ws(s: Seq<char>, j: int) -> int
    decreases j,
{
    if 0 < j <= s.len() && is_ws(s[j - 1]) {
        rskip_ws(s, j - 1)
    } else {
        j
    }
}

/// `s` without leading and trailing whitespace.
pub open spec fn trim_of(s: Seq<char>) -> Seq<char> {
    let a = skip_ws(s, 0);
    let b = rskip_ws(s, s.len() as int);
    if a < b {
        s.subrange(a, b)
    } else {
        Seq::<char>::empty()
    }
}

/// `s` split at every comma; the commas are dropped, empty pieces kept.
pub open spec fn split_commas(s: Seq<char>) -> Seq<Seq<char>>
    decreases s.len(),
    via split_commas_decreases
{
    match find_from(s, seq![','], 0) {
        None => seq![s],
        Some(i) => seq![s.subrange(0, i)] + split_commas(s.subrange(i + 1, s.len() as int)),
    }
}

#[via_fn]
proof fn split_commas_decreases(s: Seq<char>) {
    if find_from(s, seq![','], 0) is Some {
        crate::textutil::lemma_find_from_some(s, seq![','], 0);
    }
}

/// The command word of an input line: what stands before the first
/// whitespace, folded to lowercase.
pub open spec fn command_of(s: Seq<char>) -> Seq<char> {
    match find_ws_from(s, 0) {
        None => lower_of(s),
        Some(i) => lower_of(s.subrange(0, i)),
    }
}

/// Each piece trimmed.
pub open spec fn trims_of(ps: Seq<Seq<char>>) -> Seq<Seq<char>> {
    ps.map_values(|p: Seq<char>| trim_of(p))
}

/// The arguments of an input line: what follows the first whitespace, split
/// at commas, each piece trimmed. Without whitespace there is one empty
/// argument, so an argument list is never empty.
pub open spec fn args_of(s: Seq<char>) -> Seq<Seq<char>> {
    match find_ws_from(s, 0) {
        None => seq![Seq::<char>::empty()],
        Some(i) => trims_of(split_commas(s.subrange(i + 1, s.len() as int))),
    }
}

/// The views of a vector of strings.
pub open spec fn strings_of(v: Seq<String>) -> Seq<Seq<char>> {
    v.map_values(|s: String| s@)
}


proof fn lemma_rskip_le(s: Seq<char>, j: int)
    requires
        j >= 0,
    ensures
        rskip_ws(s, j) <= j,
    decreases j,
{
    if 0 < j <= s.len() && is_ws(s[j - 1]) {
        lemma_rskip_le(s, j - 1);
    }
}

fn is_ws_exec(c: char) -> (r: bool)
    ensures
        r == is_ws(c),
{
    c == ' ' || c == '\t' || c == '\n' || c == '\r'
}

/// `v` without leading and trailing whitespace.
fn trim_chars(v: &Vec<char>) -> (r: Vec<char>)
    ensures
        r@ == trim_of(v@),
{
    let n = v.len();
    let mut a: usize = 0;
    while a < n && is_ws_exec(v[a])
        invariant
            0 <= a <= n,
            n == v@.len(),
            skip_ws(v@, 0) == skip_ws(v@, a as int),
        decreases n - a,
    {
        proof {
            assert(skip_ws(v@, a as int) == skip_ws(v@, a + 1));
        }
        a = a + 1;
    }
    proof {
        assert(skip_ws(v@, 0) == a as int);
    }
    let mut b: usize = n;
    while b > a && is_ws_exec(v[b - 1])
        invariant
            a <= b <= n,
            n == v@.len(),
            skip_ws(v@, 0) == a as int,
            rskip_ws(v@, n as int) == rskip_ws(v@, b as int),
        decreases b,
    {
        proof {
            assert(rskip_ws(v@, b as int) == rskip_ws(v@, b - 1));
        }
        b = b - 1;
    }
    if a >= b {
        proof {
            lemma_rskip_le(v@, b as int);
        }
        return Vec::new();
    }
    proof {
        assert(rskip_ws(v@, b as int) == b as int);
    }
    subvec(v, a, b)
}

/// ASCII-lowercases a character vector.
fn lower_chars(v: &Vec<char>) -> (r: Vec<char>)
    ensures
        r@ == lower_of(v@),
{
    let n = v.len();
    let mut out: Vec<char> = Vec::new();
    let mut i: usize = 0;
    while i < n
        invariant
            i <= n,
            n == v@.len(),
            out@ == lower_of(v@.subrange(0, i as int)),
        decreases n - i,
    {
        out.push(to_lower_char(v[i]));
        proof {
            assert(out@ =~= lower_of(v@.subrange(0, i + 1))) by {
                assert(v@.subrange(0, i + 1) =~= v@.subrange(0, i as int).push(v@[i as int]));
            }
        }
        i = i + 1;
    }
    proof {
        assert(v@.subrange(0, n as int) =~= v@);
    }
    out
}

/// Splits a character vector at every comma.
fn split_commas_exec(v: &Vec<char>) -> (r: Vec<Vec<char>>)
    ensures
        crate::textutil::views_of(r@) == split_commas(v@),
{
    let mut sep: Vec<char> = Vec::new();
    sep.push(',');
    proof {
        assert(sep@ =~= seq![',']);
    }
    let mut pieces: Vec<Vec<char>> = Vec::new();
    let mut rest = subvec(v, 0, v.len());
    proof {
        assert(rest@ =~= v@);
        assert(crate::textutil::views_of(pieces@) =~= Seq::<Seq<char>>::empty());
    }
    loop
        invariant
            sep@ == seq![','],
            split_commas(v@) == crate::textutil::views_of(pieces@) + split_commas(rest@),
        decreases rest@.len(),
    {
        let ghost pieces0 = crate::textutil::views_of(pieces@);
        let ghost rest0 = rest@;
        match crate::textutil::find_sub(&rest, &sep, 0) {
            Some(i) => {
                let rlen = rest.len();
                let piece = subvec(&rest, 0, i);
                let newrest = subvec(&rest, i + 1, rlen);
                pieces.push(piece);
                rest = newrest;
                proof {
                    assert(split_commas(rest0) == seq![rest0.subrange(0, i as int)] + split_commas(
                        rest0.subrange(i + 1, rest0.len() as int),
                    ));
                    assert(crate::textutil::views_of(pieces@) =~= pieces0 + seq![
                        rest0.subrange(0, i as int),
                    ]);
                    assert(pieces0 + seq![rest0.subrange(0, i as int)] + split_commas(rest@)
                        =~= pieces0 + (seq![rest0.subrange(0, i as int)] + split_commas(rest@)));
                }
            },
            None => {
                let piece = subvec(&rest, 0, rest.len());
                proof {
                    assert(piece@ =~= rest0);
                }
                pieces.push(piece);
                proof {
                    assert(split_commas(rest0) == seq![rest0]);
                    assert(crate::textutil::views_of(pieces@) =~= pieces0 + seq![rest0]);
                }
                return pieces;
            },
        }
    }
}

/// Parses user input into a command word and its arguments: the text before
/// the first whitespace, folded to ASCII lowercase, and the text after it,
/// split at commas and trimmed. Without whitespace the argument list is the
/// single empty string, so it is never empty.
pub fn parse_input_commands(input: &str) -> (r: (String, Vec<String>))
    ensures
        r.0@ == command_of(input@),
        strings_of(r.1@) == args_of(input@),
        r.1@.len() >= 1,
{
    let chars = str_to_chars(input);
    let n = chars.len();
    let mut i: usize = 0;
    while i < n && !is_ws_exec(chars[i])
        invariant
            0 <= i <= n,
            n == chars@.len(),
            find_ws_from(chars@, 0) == find_ws_from(chars@, i as int),
        decreases n - i,
    {
        proof {
            assert(find_ws_from(chars@, i as int) == find_ws_from(chars@, i + 1));
        }
        i = i + 1;
    }
    let found_ws = i < n;
    proof {
        if found_ws {
            assert(find_ws_from(chars@, 0) == Some(i as int));
        } else {
            assert(find_ws_from(chars@, 0) is None);
        }
    }
    let cmd_raw = subvec(&chars, 0, i);
    let cmd_low = lower_chars(&cmd_raw);
    let command = chars_to_string(&cmd_low, 0, cmd_low.len());
    proof {
        if !found_ws {
            assert(chars@.subrange(0, i as int) =~= chars@);
        }
        assert(command@ =~= command_of(input@));
    }
    let mut arguments: Vec<String> = Vec::new();
    if !found_ws {
        arguments.push(String::new());
        proof {
            assert(strings_of(arguments@) =~= seq![Seq::<char>::empty()]);
        }
        return (command, arguments);
    }
    let rest = subvec(&chars, i + 1, n);
    let pieces = split_commas_exec(&rest);
    let ghost pviews = crate::textutil::views_of(pieces@);
    let m = pieces.len();
    let mut k: usize = 0;
    while k < m
        invariant
            k <= m,
            m == pieces@.len(),
            pviews == crate::textutil::views_of(pieces@),
            arguments@.len() == k,
            forall|j: int| 0 <= j < k ==> (#[trigger] arguments@[j])@ == trim_of(pviews[j]),
        decreases m - k,
    {
        let t = trim_chars(&pieces[k]);
        let s = chars_to_string(&t, 0, t.len());
        proof {
            assert(pviews[k as int] == pieces@[k as int]@);
            assert(s@ =~= trim_of(pviews[k as int]));
        }
        arguments.push(s);
        k = k + 1;
    }
    proof {
        assert(pviews.len() == m as int);
        assert forall|j: int| 0 <= j < m implies strings_of(arguments@)[j] == trims_of(pviews)[j]
            by {
            assert(strings_of(arguments@)[j] == arguments@[j]@);
            assert(trims_of(pviews)[j] == trim_of(pviews[j]));
        }
        assert(strings_of(arguments@) =~= trims_of(pviews));
        assert(strings_of(arguments@) =~= args_of(input@));
        assert(split_commas(rest@).len() >= 1);
    }
    (command, arguments)
}

/// The numeric value of a digit string.
pub open spec fn digits_val(s: Seq<char>) -> int
    decreases s.len(),
{
    if s.len() == 0 {
        0
    } else {
        10 * digits_val(s.drop_last()) + dval(s.last())
    }
}

/// Every character is a decimal digit.
pub open spec fn all_digits(s: Seq<char>) -> bool {
    forall|i: int| 0 <= i < s.len() ==> is_digit_char(#[trigger] s[i])
}

proof fn lemma_digits_val_nonneg(s: Seq<char>)
    requires
        all_digits(s),
    ensures
        digits_val(s) >= 0,
    decreases s.len(),
{
    if s.len() > 0 {
        assert(all_digits(s.drop_last())) by {
            assert(forall|i: int|
                0 <= i < s.drop_last().len() ==> s.drop_last()[i] == #[trigger] s[i]);
        }
        lemma_digits_val_nonneg(s.drop_last());
    }
}

/// A digit string is worth at least any of its prefixes.
proof fn lemma_digits_val_prefix(s: Seq<char>, j: int)
    requires
        all_digits(s),
        0 <= j <= s.len(),
    ensures
        digits_val(s.take(j)) <= digits_val(s),
    decreases s.len() - j,
{
    if j < s.len() {
        lemma_digits_val_prefix(s, j + 1);
        assert(s.take(j + 1).drop_last() =~= s.take(j));
        assert(s.take(j + 1).last() == s[j]);
        assert(all_digits(s.take(j))) by {
            assert(forall|i: int| 0 <= i < j ==> s.take(j)[i] == #[trigger] s[i]);
        }
        lemma_digits_val_nonneg(s.take(j));
        assert(digits_val(s.take(j + 1)) == 10 * digits_val(s.take(j)) + dval(s[j]));
    } else {
        assert(s.take(j) =~= s);
    }
}

/// Reads a nonnegative decimal number: every character a digit, the value
/// within `usize`.
pub fn parse_usize(s: &String) -> (r: Option<usize>)
    ensures
        match r {
            Some(v) => s@.len() > 0 && all_digits(s@) && digits_val(s@) == v as int,
            None => !(s@.len() > 0 && all_digits(s@) && digits_val(s@) <= usize::MAX as int),
        },
{
    let chars = str_to_chars(s.as_str());
    let n = chars.len();
    if n == 0 {
        return None;
    }
    let mut acc: usize = 0;
    let mut i: usize = 0;
    while i < n
        invariant
            0 <= i <= n,
            n == chars@.len(),
            chars@ == s@,
            all_digits(s@.take(i as int)),
            acc as int == digits_val(s@.take(i as int)),
        decreases n - i,
    {
        let d: usize = match crate::datetime::digit_val(chars[i]) {
            Some(d) => d as usize,
            None => {
                proof {
                    assert(!is_digit_char(s@[i as int]));
                }
                return None;
            },
        };
        if acc > (usize::MAX - d) / 10 {
            proof {
                assert(all_digits(s@.take(i + 1))) by {
                    assert(forall|j: int|
                        0 <= j < i + 1 ==> s@.take(i + 1)[j] == #[trigger] s@[j]);
                }
                assert(s@.take(i + 1).drop_last() =~= s@.take(i as int));
                assert(s@.take(i + 1).last() == s@[i as int]);
                assert(digits_val(s@.take(i + 1)) == 10 * acc + d);
                assert((usize::MAX - d) / 10 * 10 + (usize::MAX - d) % 10 == usize::MAX - d);
                assert(10 * acc + d > usize::MAX);
                if all_digits(s@) {
                    lemma_digits_val_prefix(s@, i + 1);
                }
            }
            return None;
        }
        proof {
            assert((usize::MAX - d) / 10 * 10 + (usize::MAX - d) % 10 == usize::MAX - d);
            assert(10 * acc + d <= usize::MAX);
            assert(all_digits(s@.take(i + 1))) by {
                assert(forall|j: int| 0 <= j < i + 1 ==> s@.take(i + 1)[j] == #[trigger] s@[j]);
            }
            assert(s@.take(i + 1).drop_last() =~= s@.take(i as int));
            assert(s@.take(i + 1).last() == s@[i as int]);
        }
        acc = acc * 10 + d;
        i = i + 1;
    }
    proof {
        assert(s@.take(n as int) =~= s@);
    }
    Some(acc)
}


/// The command vocabulary a user can type.
#[derive(Debug, Clone, PartialEq, Eq, Structural, Default)]
pub enum TASKCOM {
    #[default]
    Help,
    List,
    Add,
    Remove,
    Complete,
    Exit,
    Unknown,
}

/// The canonical (uppercase) name of each command.
pub open spec fn com_text(c: TASKCOM) -> Seq<char> {
    match c {
        TASKCOM::Help => "HELP"@,
        TASKCOM::List => "LIST"@,
        TASKCOM::Add => "ADD"@,
        TASKCOM::Remove => "REMOVE"@,
        TASKCOM::Complete => "COMPLETE"@,
        TASKCOM::Exit => "EXIT"@,
        TASKCOM::Unknown => "UNKNOWN"@,
    }
}

impl TASKCOM {
    /// Reads a canonical command name; any other text is refused.
    pub fn from_str(input: &str) -> (r: Result<TASKCOM, ()>)
        ensures
            r is Ok <==> exists|c: TASKCOM| input@ == com_text(c),
            r is Ok ==> input@ == com_text(r->Ok_0),
    {
        if str_eq(input, "HELP") {
            proof {
                assert(input@ == com_text(TASKCOM::Help));
            }
            Ok(TASKCOM::Help)
        } else if str_eq(input, "LIST") {
            proof {
                assert(input@ == com_text(TASKCOM::List));
            }
            Ok(TASKCOM::List)
        } else if str_eq(input, "ADD") {
            proof {
                assert(input@ == com_text(TASKCOM::Add));
            }
            Ok(TASKCOM::Add)
        } else if str_eq(input, "REMOVE") {
            proof {
                assert(input@ == com_text(TASKCOM::Remove));
            }
            Ok(TASKCOM::Remove)
        } else if str_eq(input, "COMPLETE") {
            proof {
                assert(input@ == com_text(TASKCOM::Complete));
            }
            Ok(TASKCOM::Complete)
        } else if str_eq(input, "EXIT") {
            proof {
                assert(input@ == com_text(TASKCOM::Exit));
            }
            Ok(TASKCOM::Exit)
        } else if str_eq(input, "UNKNOWN") {
            proof {
                assert(input@ == com_text(TASKCOM::Unknown));
            }
            Ok(TASKCOM::Unknown)
        } else {
            proof {
                assert forall|c: TASKCOM| input@ != com_text(c) by {
                    match c {
                        TASKCOM::Help => {},
                        TASKCOM::List => {},
                        TASKCOM::Add => {},
                        TASKCOM::Remove => {},
                        TASKCOM::Complete => {},
                        TASKCOM::Exit => {},
                        TASKCOM::Unknown => {},
                    }
                }
            }
            Err(())
        }
    }

    /// The command's canonical name.
    pub fn com_string(&self) -> (r: String)
        ensures
            r@ == com_text(*self),
    {
        match self {
            TASKCOM::Help => String::from_str("HELP"),
            TASKCOM::List => String::from_str("LIST"),
            TASKCOM::Add => String::from_str("ADD"),
            TASKCOM::Remove => String::from_str("REMOVE"),
            TASKCOM::Complete => String::from_str("COMPLETE"),
            TASKCOM::Exit => String::from_str("EXIT"),
            TASKCOM::Unknown => String::from_str("UNKNOWN"),
        }
    }

    /// All command values, the fallback included.
    pub fn into_iter() -> (r: Vec<TASKCOM>)
        ensures
            r@ == seq![
                TASKCOM::Help,
                TASKCOM::List,
                TASKCOM::Add,
                TASKCOM::Remove,
                TASKCOM::Complete,
                TASKCOM::Exit,
                TASKCOM::Unknown,
            ],
    {
        let r = vec![
            TASKCOM::Help,
            TASKCOM::List,
            TASKCOM::Add,
            TASKCOM::Remove,
            TASKCOM::Complete,
            TASKCOM::Exit,
            TASKCOM::Unknown,
        ];
        proof {
            assert(r@ =~= seq![
                TASKCOM::Help,
                TASKCOM::List,
                TASKCOM::Add,
                TASKCOM::Remove,
                TASKCOM::Complete,
                TASKCOM::Exit,
                TASKCOM::Unknown,
            ]);
        }
        r
    }

    /// The commands shown to the user: all but the fallback.
    pub fn into_iter_client() -> (r: Vec<TASKCOM>)
        ensures
            r@ == seq![
                TASKCOM::Help,
                TASKCOM::List,
                TASKCOM::Add,
                TASKCOM::Remove,
                TASKCOM::Complete,
                TASKCOM::Exit,
            ],
    {
        let r = vec![
            TASKCOM::Help,
            TASKCOM::List,
            TASKCOM::Add,
            TASKCOM::Remove,
            TASKCOM::Complete,
            TASKCOM::Exit,
        ];
        proof {
            assert(r@ =~= seq![
                TASKCOM::Help,
                TASKCOM::List,
                TASKCOM::Add,
                TASKCOM::Remove,
                TASKCOM::Complete,
                TASKCOM::Exit,
            ]);
        }
        r
    }
}

/// The user-visible commands, comma-separated.
pub fn list_task_commands() -> (r: String)
    ensures
        r@ == "HELP, LIST, ADD, REMOVE, COMPLETE, EXIT"@,
{
    let cmds = TASKCOM::into_iter_client();
    let mut s = cmds[0].com_string();
    let mut i: usize = 1;
    while i < 6
        invariant
            1 <= i <= 6,
            cmds@ == seq![
                TASKCOM::Help,
                TASKCOM::List,
                TASKCOM::Add,
                TASKCOM::Remove,
                TASKCOM::Complete,
                TASKCOM::Exit,
            ],
            i == 2 ==> s@ == "HELP, LIST"@,
            i == 3 ==> s@ == "HELP, LIST, ADD"@,
            i == 4 ==> s@ == "HELP, LIST, ADD, REMOVE"@,
            i == 5 ==> s@ == "HELP, LIST, ADD, REMOVE, COMPLETE"@,
            i == 6 ==> s@ == "HELP, LIST, ADD, REMOVE, COMPLETE, EXIT"@,
            i == 1 ==> s@ == "HELP"@,
        decreases 6 - i,
    {
        s.append(", ");
        let name = cmds[i].com_string();
        s.append(name.as_str());
        proof {
            reveal_strlit("HELP");
            reveal_strlit("LIST");
            reveal_strlit("ADD");
            reveal_strlit("REMOVE");
            reveal_strlit("COMPLETE");
            reveal_strlit("EXIT");
            reveal_strlit(", ");
            reveal_strlit("HELP, LIST");
            reveal_strlit("HELP, LIST, ADD");
            reveal_strlit("HELP, LIST, ADD, REMOVE");
            reveal_strlit("HELP, LIST, ADD, REMOVE, COMPLETE");
            reveal_strlit("HELP, LIST, ADD, REMOVE, COMPLETE, EXIT");
            if i == 1 {
                assert(s@ =~= "HELP, LIST"@);
            } else if i == 2 {
                assert(s@ =~= "HELP, LIST, ADD"@);
            } else if i == 3 {
                assert(s@ =~= "HELP, LIST, ADD, REMOVE"@);
            } else if i == 4 {
                assert(s@ =~= "HELP, LIST, ADD, REMOVE, COMPLETE"@);
            } else {
                assert(s@ =~= "HELP, LIST, ADD, REMOVE, COMPLETE, EXIT"@);
            }
        }
        i = i + 1;
    }
    s
}


/// The general help text, shown when no command or an empty one is named.
pub open spec fn general_help_text() -> Seq<char> {
    "\n    Please use these commands to interact:\r\n\n    HELP, LIST, ADD, REMOVE, COMPLETE, EXIT\r\n    \n    For further help type 'help command' like 'help add' no quotes.\n"@
}

/// The help text for one named command, the general text for none or an
/// empty name, and the refusal message for anything else.
pub open spec fn help_text_for(cmd: Option<Seq<char>>) -> Seq<char> {
    match cmd {
        None => general_help_text(),
        Some(c) => if c == "list"@ {
            "\n        The LIST command will LIST out your current tasks.\n        "@
        } else if c == "add"@ {
            "\n        The ADD command will ADD a task when used like so:\n    \n        add This is a test!\n    \n        or to add with a due date:\n    \n        add Testing,2024-03-30 12:00:00 -05:00\n        "@
        } else if c == "remove"@ {
            "\n        The REMOVE command will REMOVE a task when used like so:\n    \n        remove 1\n    \n        This removes task 1 from your tasklist.\n        "@
        } else if c == "complete"@ {
            "\n        The COMPLETE command will COMPLETE a task when used like so:\n    \n        complete 1\n    \n        This completes task 1 from your tasklist.\n        "@
        } else if c == "exit"@ {
            "\n        The EXIT command EXITS the CLI Rusty Tasks process.\n        "@
        } else if c == ""@ {
            general_help_text()
        } else {
            "Invalid HELP command please try again."@
        },
    }
}

/// Whether a help request names a known command (or none at all).
pub open spec fn help_ok(cmd: Option<Seq<char>>) -> bool {
    match cmd {
        None => true,
        Some(c) => c == "list"@ || c == "add"@ || c == "remove"@ || c == "complete"@
            || c == "exit"@ || c == ""@,
    }
}

/// The view of an optional string.
pub open spec fn opt_view(o: Option<String>) -> Option<Seq<char>> {
    match o {
        None => None,
        Some(s) => Some(s@),
    }
}

/// Help for one command, or the general usage text for `None` or an empty
/// name; an unknown name is refused.
pub fn command_help(command: Option<String>) -> (r: Result<String, String>)
    ensures
        help_ok(opt_view(command)) ==> r is Ok && r->Ok_0@ == help_text_for(opt_view(command)),
        !help_ok(opt_view(command)) ==> r is Err && r->Err_0@ == help_text_for(opt_view(command))
            && r->Err_0@ == "Invalid HELP command please try again."@,
{
    match &command {
        None => Ok(String::from_str(
            "\n    Please use these commands to interact:\r\n\n    HELP, LIST, ADD, REMOVE, COMPLETE, EXIT\r\n    \n    For further help type 'help command' like 'help add' no quotes.\n",
        )),
        Some(value) => {
            if str_eq(value.as_str(), "list") {
                Ok(String::from_str(
                    "\n        The LIST command will LIST out your current tasks.\n        ",
                ))
            } else if str_eq(value.as_str(), "add") {
                Ok(String::from_str(
                    "\n        The ADD command will ADD a task when used like so:\n    \n        add This is a test!\n    \n        or to add with a due date:\n    \n        add Testing,2024-03-30 12:00:00 -05:00\n        ",
                ))
            } else if str_eq(value.as_str(), "remove") {
                Ok(String::from_str(
                    "\n        The REMOVE command will REMOVE a task when used like so:\n    \n        remove 1\n    \n        This removes task 1 from your tasklist.\n        ",
                ))
            } else if str_eq(value.as_str(), "complete") {
                Ok(String::from_str(
                    "\n        The COMPLETE command will COMPLETE a task when used like so:\n    \n        complete 1\n    \n        This completes task 1 from your tasklist.\n        ",
                ))
            } else if str_eq(value.as_str(), "exit") {
                Ok(String::from_str(
                    "\n        The EXIT command EXITS the CLI Rusty Tasks process.\n        ",
                ))
            } else if str_eq(value.as_str(), "") {
                Ok(String::from_str(
                    "\n    Please use these commands to interact:\r\n\n    HELP, LIST, ADD, REMOVE, COMPLETE, EXIT\r\n    \n    For further help type 'help command' like 'help add' no quotes.\n",
                ))
            } else {
                Err(String::from_str("Invalid HELP command please try again."))
            }
        },
    }
}

/// The epoch instant, standing in for a due date that would not parse.
pub open spec fn epoch_ts() -> Timestamp {
    Timestamp { year: 1970, month: 1, day: 1, hour: 0, minute: 0, second: 0 }
}

/// The due date an `add` argument denotes: absent for an empty argument;
/// otherwise the written calendar date at midnight, taken as UTC, or the
/// epoch when the text does not match the codec's date pattern.
pub open spec fn due_from_arg(s: Seq<char>) -> Option<Timestamp> {
    if s.len() == 0 {
        None
    } else {
        Some(
            match parse_ts_shape(s) {
                Some((l, m)) => Timestamp {
                    year: l.year,
                    month: l.month,
                    day: l.day,
                    hour: 0,
                    minute: 0,
                    second: 0,
                },
                None => epoch_ts(),
            },
        )
    }
}

/// Adds a task with the given description and due-date argument to the end
/// of the store. An empty description is refused and leaves the store
/// unchanged.
pub fn command_add(global_tasks: &mut TaskList, data: String, date: String) -> (r: Result<
    (),
    String,
>)
    ensures
        data@.len() == 0 ==> r is Err && r->Err_0@ == "Invalid ADD command please try again."@
            && final(global_tasks)@ == old(global_tasks)@,
        data@.len() > 0 ==> r is Ok && final(global_tasks)@ == old(global_tasks)@.push(
            TaskModel { completed: false, data: data@, due: due_from_arg(date@), done: None },
        ),
        old(global_tasks).wf() ==> final(global_tasks).wf(),
{
    if data.as_str().is_empty() {
        return Err(String::from_str("Invalid ADD command please try again."));
    }
    let mut temp_task = Task::new(false, data);
    if !date.as_str().is_empty() {
        let chars = str_to_chars(date.as_str());
        let due = match crate::datetime::parse_ts_shape_exec(&chars) {
            Some((l, _m)) => {
                proof {
                    assert(parse_ts_shape(date@) is Some);
                    assert(l.wf());
                }
                Timestamp {
                    year: l.year,
                    month: l.month,
                    day: l.day,
                    hour: 0,
                    minute: 0,
                    second: 0,
                }
            },
            None => Timestamp { year: 1970, month: 1, day: 1, hour: 0, minute: 0, second: 0 },
        };
        temp_task.due_date = Some(due);
    }
    let ghost t0 = temp_task@;
    match global_tasks.add_task(temp_task) {
        Ok(_) => {
            proof {
                assert(t0 == (TaskModel {
                    completed: false,
                    data: t0.data,
                    due: due_from_arg(date@),
                    done: None,
                }));
                if old(global_tasks).wf() {
                    assert forall|i: int| 0 <= i < final(global_tasks)@.len() implies (
                    #[trigger] final(global_tasks)@[i]).wf() by {
                        if i < old(global_tasks)@.len() {
                            assert(final(global_tasks)@[i] == old(global_tasks)@[i]);
                        }
                    }
                }
            }
            Ok(())
        },
        Err(_) => Err(String::from_str("Invalid ADD command please try again.")),
    }
}

/// Removes the task the user numbered `index`, counting from one; zero and
/// anything past the end are refused and leave the store unchanged.
pub fn command_remove(global_tasks: &mut TaskList, index: usize) -> (r: Result<(), String>)
    ensures
        1 <= index <= old(global_tasks)@.len() ==> r is Ok && final(global_tasks)@ == old(global_tasks)@.remove(index - 1),
        !(1 <= index <= old(global_tasks)@.len()) ==> r is Err && r->Err_0@
            == "Invalid REMOVE command please try again."@ && final(global_tasks)@ == old(global_tasks)@,
        old(global_tasks).wf() ==> final(global_tasks).wf(),
{
    if index == 0 {
        return Err(String::from_str("Invalid REMOVE command please try again."));
    }
    match global_tasks.delete_task(index - 1) {
        Ok(_) => {
            proof {
                if old(global_tasks).wf() {
                    assert forall|i: int| 0 <= i < final(global_tasks)@.len() implies (
                    #[trigger] final(global_tasks)@[i]).wf() by {
                        if i < index - 1 {
                            assert(final(global_tasks)@[i] == old(global_tasks)@[i]);
                        } else {
                            assert(final(global_tasks)@[i] == old(global_tasks)@[i + 1]);
                        }
                    }
                }
            }
            Ok(())
        },
        Err(_) => Err(String::from_str("Invalid REMOVE command please try again.")),
    }
}

/// What a successful `complete` does to the store: the flag at `i` flips,
/// everything else at `i` stays, a task completed by the flip receives some
/// well-formed completion instant, one uncompleted keeps its old one, and
/// no other task moves.
pub open spec fn complete_effect(old: Seq<TaskModel>, new: Seq<TaskModel>, i: int) -> bool {
    &&& new.len() == old.len()
    &&& forall|j: int| 0 <= j < old.len() && j != i ==> new[j] == #[trigger] old[j]
    &&& new[i].completed == !old[i].completed
    &&& new[i].data == old[i].data
    &&& new[i].due == old[i].due
    &&& (!old[i].completed ==> new[i].done is Some && new[i].done->Some_0.wf())
    &&& (old[i].completed ==> new[i].done == old[i].done)
}

/// Toggles completion of the task the user numbered `index`, counting from
/// one, and stamps the completion time when the toggle completed the task;
/// zero and anything past the end are refused and leave the store unchanged.
pub fn command_complete(global_tasks: &mut TaskList, index: usize) -> (r: Result<(), String>)
    ensures
        1 <= index <= old(global_tasks)@.len() ==> r is Ok && complete_effect(
            old(global_tasks)@,
            final(global_tasks)@,
            index - 1,
        ),
        !(1 <= index <= old(global_tasks)@.len()) ==> r is Err && r->Err_0@
            == "Invalid COMPLETE command please try again."@ && final(global_tasks)@ == old(global_tasks)@,
        old(global_tasks).wf() ==> final(global_tasks).wf(),
{
    if index == 0 {
        return Err(String::from_str("Invalid COMPLETE command please try again."));
    }
    let i = index - 1;
    let ghost pre = global_tasks@;
    match global_tasks.toggle_completed_task(i) {
        Ok(_) => {
            let ghost toggled = global_tasks@;
            proof {
                assert(toggled == toggle_at(pre, i as int));
                assert(toggled.len() == pre.len());
                assert(global_tasks.tasks@.len() == global_tasks@.len());
                assert(i < global_tasks.tasks@.len());
            }
            if global_tasks.tasks[i].completed {
                let stamp = now_or_default();
                global_tasks.tasks[i].completed_date = Some(stamp);
                proof {
                    assert(global_tasks@ =~= toggled.update(
                        i as int,
                        TaskModel { done: Some(stamp), ..toggled[i as int] },
                    ));
                }
            }
            proof {
                assert(complete_effect(pre, global_tasks@, i as int));
                if old(global_tasks).wf() {
                    assert forall|j: int| 0 <= j < global_tasks@.len() implies (
                    #[trigger] global_tasks@[j]).wf() by {
                        assert(pre[j].wf());
                    }
                }
            }
            Ok(())
        },
        Err(_) => Err(String::from_str("Invalid COMPLETE command please try again.")),
    }
}


/// What the caller should do after a handled command: show a text, list the
/// tasks, persist the store and then list it, or end the session.
#[derive(Debug)]
pub enum CommandOutcome {
    ShowText(String),
    ShowList,
    SaveAndList,
    Exit,
}

/// The first argument, trimmed, as the help request it names.
pub open spec fn help_arg_of(args: Seq<Seq<char>>) -> Option<Seq<char>> {
    if args.len() > 0 {
        Some(trim_of(args[0]))
    } else {
        None
    }
}

/// Whether an argument text parses as a task number within `usize`.
pub open spec fn arg_is_number(a: Seq<char>) -> bool {
    a.len() > 0 && all_digits(a) && digits_val(a) <= usize::MAX as int
}

/// Dispatches one parsed command against the store. Mutating commands say
/// through [`CommandOutcome::SaveAndList`] that the caller must persist and
/// relist; nothing here touches a file or a terminal.
pub fn handle_command(
    command: TASKCOM,
    arguments: Vec<String>,
    global_tasks: &mut TaskList,
) -> (r: Result<CommandOutcome, String>)
    requires
        arguments@.len() >= 1,
    ensures
        command is Help ==> r is Ok && r->Ok_0 is ShowText && r->Ok_0->ShowText_0@
            == help_text_for(help_arg_of(strings_of(arguments@))) && final(global_tasks)@ == old(global_tasks)@,
        command is List ==> r is Ok && r->Ok_0 is ShowList && final(global_tasks)@ == old(global_tasks)@,
        command is Add ==> ({
            let data = arguments@[0]@;
            let date = if arguments@.len() > 1 {
                arguments@[1]@
            } else {
                Seq::<char>::empty()
            };
            &&& data.len() == 0 ==> r is Err && r->Err_0@
                == "Invalid ADD command please try again."@ && final(global_tasks)@ == old(global_tasks)@
            &&& data.len() > 0 ==> r is Ok && r->Ok_0 is SaveAndList && final(global_tasks)@ == old(global_tasks)@.push(
                TaskModel { completed: false, data: data, due: due_from_arg(date), done: None },
            )
        }),
        command is Remove ==> ({
            let a = arguments@[0]@;
            if arg_is_number(a) && 1 <= digits_val(a) <= old(global_tasks)@.len() {
                r is Ok && r->Ok_0 is SaveAndList && final(global_tasks)@ == old(global_tasks)@.remove(digits_val(a) - 1)
            } else {
                r is Err && r->Err_0@ == "Invalid REMOVE command please try again."@ && final(global_tasks)@ == old(global_tasks)@
            }
        }),
        command is Complete ==> ({
            let a = arguments@[0]@;
            if arg_is_number(a) && 1 <= digits_val(a) <= old(global_tasks)@.len() {
                r is Ok && r->Ok_0 is SaveAndList && complete_effect(
                    old(global_tasks)@,
                    final(global_tasks)@,
                    digits_val(a) - 1,
                )
            } else {
                r is Err && r->Err_0@ == "Invalid COMPLETE command please try again."@ && final(global_tasks)@ == old(global_tasks)@
            }
        }),
        command is Exit ==> r is Ok && r->Ok_0 is Exit && final(global_tasks)@ == old(global_tasks)@,
        command is Unknown ==> r is Err && r->Err_0@
            == "Invalid command. Try 'help' for a list of commands."@ && final(global_tasks)@
            == old(global_tasks)@,
        old(global_tasks).wf() ==> final(global_tasks).wf(),
{
    match command {
        TASKCOM::Help => {
            let raw = str_to_chars(arguments[0].as_str());
            let trimmed = trim_chars(&raw);
            let arg = chars_to_string(&trimmed, 0, trimmed.len());
            proof {
                assert(arg@ =~= trim_of(strings_of(arguments@)[0]));
            }
            let text = match command_help(Some(arg)) {
                Ok(text) => text,
                Err(error) => error,
            };
            Ok(CommandOutcome::ShowText(text))
        },
        TASKCOM::List => Ok(CommandOutcome::ShowList),
        TASKCOM::Add => {
            let data = String::from_str(arguments[0].as_str());
            let date = if arguments.len() > 1 {
                String::from_str(arguments[1].as_str())
            } else {
                String::new()
            };
            command_add(global_tasks, data, date)?;
            Ok(CommandOutcome::SaveAndList)
        },
        TASKCOM::Remove => {
            let index = match parse_usize(&arguments[0]) {
                Some(index) => index,
                None => {
                    return Err(String::from_str("Invalid REMOVE command please try again."));
                },
            };
            command_remove(global_tasks, index)?;
            Ok(CommandOutcome::SaveAndList)
        },
        TASKCOM::Complete => {
            let index = match parse_usize(&arguments[0]) {
                Some(index) => index,
                None => {
                    return Err(String::from_str("Invalid COMPLETE command please try again."));
                },
            };
            command_complete(global_tasks, index)?;
            Ok(CommandOutcome::SaveAndList)
        },
        TASKCOM::Exit => Ok(CommandOutcome::Exit),
        TASKCOM::Unknown => Err(
            String::from_str("Invalid command. Try 'help' for a list of commands."),
        ),
    }
}

/// A filepath the session accepts as a save location: nonempty and not the
/// bare root, so it has a parent directory.
pub open spec fn path_has_parent(s: Seq<char>) -> bool {
    s.len() > 0 && s != seq!['/']
}

/// Executable check of [`path_has_parent`].
pub fn filepath_has_parent(filepath: &str) -> (r: bool)
    ensures
        r == path_has_parent(filepath@),
{
    let n = filepath.unicode_len();
    if n == 0 {
        return false;
    }
    if n == 1 && filepath.get_char(0) == '/' {
        proof {
            assert(filepath@ =~= seq!['/']);
        }
        return false;
    }
    proof {
        if filepath@ == seq!['/'] {
            assert(filepath@.len() == 1);
            assert(filepath@[0] == '/');
        }
    }
    true
}

/// Makes `filepath` the session's default file, provided it names a
/// location with a parent directory.
pub fn set_defaultfilepath(global_datafilepath: &mut String, filepath: String) -> (r: Result<
    (),
    String,
>)
    ensures
        path_has_parent(filepath@) ==> r is Ok && final(global_datafilepath)@ == filepath@,
        !path_has_parent(filepath@) ==> r is Err && r->Err_0@
            == "Invalid filepath provided for command_saveas."@ && final(global_datafilepath)@
            == old(global_datafilepath)@,
{
    if !filepath_has_parent(filepath.as_str()) {
        return Err(String::from_str("Invalid filepath provided for command_saveas."));
    }
    *global_datafilepath = filepath;
    Ok(())
}

/// Points the session at another task file: validates the path's shape and
/// makes it the default. The caller then reads that file and rebuilds the
/// store from its text.
pub fn command_loadfile(global_datafilepath: &mut String, filepath: String) -> (r: Result<
    (),
    String,
>)
    ensures
        path_has_parent(filepath@) ==> r is Ok && final(global_datafilepath)@ == filepath@,
        !path_has_parent(filepath@) ==> r is Err && r->Err_0@
            == "Invalid filepath provided for command_saveas."@ && final(global_datafilepath)@
            == old(global_datafilepath)@,
{
    if !filepath_has_parent(filepath.as_str()) {
        return Err(String::from_str("Invalid filepath provided for command_saveas."));
    }
    set_defaultfilepath(global_datafilepath, filepath)
}

} // verus!
