//! The command parser: one raw input line becomes one typed command.
//!
//! A line splits at every dash and line break; the first token, with its
//! surrounding whitespace removed, names the command, and the following
//! tokens carry its arguments.

use vstd::prelude::*;

use crate::num::token_num;

verus! {

// ---------------------------------------------------------------------------
// Splitting and trimming, as sequences of characters.
// ---------------------------------------------------------------------------

/// The whitespace that trimming removes from a token's ends.
pub open spec fn is_ws(c: char) -> bool {
    c == ' ' || c == '\t' || c == '\r' || c == '\n'
}

/// The characters a line splits at.
pub open spec fn is_delim(c: char) -> bool {
    c == '-' || c == '\n'
}

/// The position of the first delimiter of `s`, or its length when there is
/// none.
pub open spec fn first_delim(s: Seq<char>) -> int
    decreases s.len(),
{
    if s.len() == 0 {
        0
    } else if is_delim(s[0]) {
        0
    } else {
        1 + first_delim(s.skip(1))
    }
}

proof fn lemma_first_delim_exact(s: Seq<char>, k: int)
    requires
        0 <= k <= s.len(),
        forall|j: int| 0 <= j < k ==> !is_delim(#[trigger] s[j]),
        k == s.len() || is_delim(s[k]),
    ensures
        first_delim(s) == k,
    decreases k,
{
    if k > 0 {
        assert(forall|j: int| 0 <= j < k - 1 ==> !is_delim(#[trigger] s.skip(1)[j]));
        lemma_first_delim_exact(s.skip(1), k - 1);
    }
}

/// The tokens of a line: the pieces between delimiters, in order. A line
/// without a delimiter is one token; every delimiter starts a further one.
pub open spec fn spec_split(s: Seq<char>) -> Seq<Seq<char>>
    decreases s.len(),
{
    let k = first_delim(s);
    if 0 <= k < s.len() {
        seq![s.take(k)] + spec_split(s.skip(k + 1))
    } else {
        seq![s]
    }
}

proof fn lemma_spec_split_len(s: Seq<char>)
    ensures
        spec_split(s).len() >= 1,
    decreases s.len(),
{
    let k = first_delim(s);
    if 0 <= k < s.len() {
        lemma_spec_split_len(s.skip(k + 1));
    }
}

/// `s` without leading whitespace.
pub open spec fn trim_front(s: Seq<char>) -> Seq<char>
    decreases s.len(),
{
    if s.len() > 0 && is_ws(s[0]) {
        trim_front(s.skip(1))
    } else {
        s
    }
}

/// `s` without trailing whitespace.
pub open spec fn trim_back(s: Seq<char>) -> Seq<char>
    decreases s.len(),
{
    if s.len() > 0 && is_ws(s.last()) {
        trim_back(s.drop_last())
    } else {
        s
    }
}

/// `s` without leading and trailing whitespace.
pub open spec fn spec_trim(s: Seq<char>) -> Seq<char> {
    trim_back(trim_front(s))
}

// ---------------------------------------------------------------------------
// The command grammar.
// ---------------------------------------------------------------------------

/// A parsed user intent, ready for dispatch.
pub enum Command {
    Help,
    Add(String),
    ListAll,
    UpdateText(u32, String),
    Complete(u32),
    Error(String),
    Load(String),
    Save(String),
    New,
    Exit,
}

/// Mathematical model of a command.
pub enum CmdModel {
    Help,
    Add(Seq<char>),
    ListAll,
    UpdateText(u32, Seq<char>),
    Complete(u32),
    Error(Seq<char>),
    Load(Seq<char>),
    Save(Seq<char>),
    New,
    Exit,
}

impl View for Command {
    type V = CmdModel;

    open spec fn view(&self) -> CmdModel {
        match self {
            Command::Help => CmdModel::Help,
            Command::Add(t) => CmdModel::Add(t@),
            Command::ListAll => CmdModel::ListAll,
            Command::UpdateText(i, t) => CmdModel::UpdateText(*i, t@),
            Command::Complete(i) => CmdModel::Complete(*i),
            Command::Error(m) => CmdModel::Error(m@),
            Command::Load(f) => CmdModel::Load(f@),
            Command::Save(f) => CmdModel::Save(f@),
            Command::New => CmdModel::New,
            Command::Exit => CmdModel::Exit,
        }
    }
}

pub open spec fn msg_add() -> Seq<char> {
    "[add] requires a non-empty text parameter [-text]"@
}

pub open spec fn msg_update_int() -> Seq<char> {
    "The first parameter should be a positive integer, ex. [update [-123] [-some text]]"@
}

pub open spec fn msg_complete_int() -> Seq<char> {
    "The first parameter should be a positive integer, ex. [complete [-123]]"@
}

pub open spec fn msg_range() -> Seq<char> {
    "The specified index is outside of the element range. Try [list] to check the indexes"@
}

pub open spec fn msg_filename() -> Seq<char> {
    "A filename parameter is required, ex. [save [-mylist]]"@
}

pub open spec fn msg_unknown() -> Seq<char> {
    "Input not recognized as a command. Commands are case sensitive. Use command [help] for available commands."@
}

/// What a raw line parses to. `limit` is the store's current counter: an
/// index argument above it is outside the element range.
pub open spec fn spec_parse(line: Seq<char>, limit: u32) -> CmdModel {
    let toks = spec_split(line);
    let head = spec_trim(toks[0]);
    if head == "list"@ {
        CmdModel::ListAll
    } else if head == "help"@ {
        CmdModel::Help
    } else if head == "new"@ {
        CmdModel::New
    } else if head == "exit"@ {
        CmdModel::Exit
    } else if head == "add"@ {
        if toks.len() >= 2 && spec_trim(toks[1]).len() > 0 {
            CmdModel::Add(spec_trim(toks[1]))
        } else {
            CmdModel::Error(msg_add())
        }
    } else if head == "update"@ {
        if toks.len() < 3 {
            CmdModel::Error(msg_update_int())
        } else {
            let o = token_num(spec_trim(toks[1]));
            if o is None || o->0 > u32::MAX {
                CmdModel::Error(msg_update_int())
            } else if o->0 <= limit {
                CmdModel::UpdateText(o->0 as u32, spec_trim(toks[2]))
            } else {
                CmdModel::Error(msg_range())
            }
        }
    } else if head == "complete"@ {
        if toks.len() < 2 {
            CmdModel::Error(msg_complete_int())
        } else {
            let o = token_num(spec_trim(toks[1]));
            if o is None || o->0 > u32::MAX {
                CmdModel::Error(msg_complete_int())
            } else if o->0 <= limit {
                CmdModel::Complete(o->0 as u32)
            } else {
                CmdModel::Error(msg_range())
            }
        }
    } else if head == "load"@ {
        if toks.len() >= 2 && spec_trim(toks[1]).len() > 0 {
            CmdModel::Load(spec_trim(toks[1]))
        } else {
            CmdModel::Error(msg_filename())
        }
    } else if head == "save"@ {
        if toks.len() >= 2 && spec_trim(toks[1]).len() > 0 {
            CmdModel::Save(spec_trim(toks[1]))
        } else {
            CmdModel::Error(msg_filename())
        }
    } else {
        CmdModel::Error(msg_unknown())
    }
}

// ---------------------------------------------------------------------------
// The executable parser.
// ---------------------------------------------------------------------------

/// Compares two pieces of text character by character.
fn str_eq(a: &str, b: &str) -> (r: bool)
    ensures
        r == (a@ == b@),
{
    let alen = a.unicode_len();
    let blen = b.unicode_len();
    if alen != blen {
        return false;
    }
    let mut i: usize = 0;
    while i < alen
        invariant
            i <= alen,
            alen == a@.len(),
            alen == b@.len(),
            forall|k: int| 0 <= k < i ==> a@[k] == b@[k],
        decreases alen - i,
    {
        if a.get_char(i) != b.get_char(i) {
            proof {
                if a@ == b@ {
                    assert(a@[i as int] == b@[i as int]);
                    assert(false);
                }
            }
            return false;
        }
        i = i + 1;
    }
    proof {
        assert(a@ =~= b@);
    }
    true
}

/// The text between a token's outer whitespace.
fn trim_str<'a>(s: &'a str) -> (r: &'a str)
    ensures
        r@ == spec_trim(s@),
{
    let len = s.unicode_len();
    let mut a: usize = 0;
    let mut stop = false;
    proof {
        assert(s@.skip(0) =~= s@);
    }
    while !stop && a < len
        invariant
            a <= len,
            len == s@.len(),
            trim_front(s@) == trim_front(s@.skip(a as int)),
            stop ==> a < len && !is_ws(s@[a as int]),
        decreases len - a, (if stop {
            0int
        } else {
            1int
        }),
    {
        let c = s.get_char(a);
        if c == ' ' || c == '\t' || c == '\r' || c == '\n' {
            proof {
                assert(s@.skip(a as int)[0] == s@[a as int]);
                assert(s@.skip(a as int).skip(1) =~= s@.skip(a + 1));
            }
            a = a + 1;
        } else {
            stop = true;
        }
    }
    proof {
        if a < len {
            assert(s@.skip(a as int)[0] == s@[a as int]);
        }
        assert(trim_front(s@.skip(a as int)) == s@.skip(a as int));
    }
    let ghost t = s@.skip(a as int);
    let mut b: usize = len;
    let mut stop2 = false;
    proof {
        assert(s@.subrange(a as int, b as int) =~= t);
    }
    while !stop2 && b > a
        invariant
            a <= b <= len,
            len == s@.len(),
            t == s@.skip(a as int),
            trim_back(t) == trim_back(s@.subrange(a as int, b as int)),
            stop2 ==> b > a && !is_ws(s@[b - 1]),
        decreases b, (if stop2 {
            0int
        } else {
            1int
        }),
    {
        let c = s.get_char(b - 1);
        if c == ' ' || c == '\t' || c == '\r' || c == '\n' {
            proof {
                let u = s@.subrange(a as int, b as int);
                assert(u.last() == s@[b - 1]);
                assert(u.drop_last() =~= s@.subrange(a as int, b - 1));
            }
            b = b - 1;
        } else {
            stop2 = true;
        }
    }
    proof {
        let u = s@.subrange(a as int, b as int);
        if b > a {
            assert(u.last() == s@[b - 1]);
        }
        assert(trim_back(u) == u);
    }
    s.substring_char(a, b)
}

/// The tokens of a line, in order.
fn split_line(s: &str) -> (r: Vec<String>)
    ensures
        r@.map_values(|t: String| t@) == spec_split(s@),
        r@.len() >= 1,
    decreases s@.len(),
{
    let len = s.unicode_len();
    let mut k: usize = 0;
    let mut found = false;
    while !found && k < len
        invariant
            k <= len,
            len == s@.len(),
            forall|j: int| 0 <= j < k ==> !is_delim(#[trigger] s@[j]),
            found ==> k < len && is_delim(s@[k as int]),
        decreases len - k, (if found {
            0int
        } else {
            1int
        }),
    {
        let c = s.get_char(k);
        if c == '-' || c == '\n' {
            found = true;
        } else {
            k = k + 1;
        }
    }
    if !found {
        proof {
            lemma_first_delim_exact(s@, len as int);
        }
        let tok = String::from_str(s);
        let mut v: Vec<String> = Vec::new();
        v.push(tok);
        proof {
            assert(v@.map_values(|t: String| t@) =~~= spec_split(s@));
        }
        v
    } else {
        proof {
            lemma_first_delim_exact(s@, k as int);
        }
        let head = s.substring_char(0, k);
        let tail = s.substring_char(k + 1, len);
        proof {
            assert(tail@ =~= s@.skip(k + 1));
        }
        let mut v = split_line(tail);
        let tok = String::from_str(head);
        v.insert(0, tok);
        proof {
            assert(head@ =~= s@.take(k as int));
            assert(v@.map_values(|t: String| t@) =~~= seq![s@.take(k as int)] + spec_split(
                s@.skip(k + 1),
            ));
        }
        v
    }
}

/// Parses one raw input line against the store's current counter.
pub fn parse_line(line: &str, limit: u32) -> (r: Command)
    ensures
        r@ == spec_parse(line@, limit),
{
    proof {
        lemma_spec_split_len(line@);
    }
    let toks = split_line(line);
    let ghost tokv = toks@.map_values(|t: String| t@);
    proof {
        assert(tokv[0] == toks@[0]@);
    }
    let head = trim_str(toks[0].as_str());
    if str_eq(head, "list") {
        Command::ListAll
    } else if str_eq(head, "help") {
        Command::Help
    } else if str_eq(head, "new") {
        Command::New
    } else if str_eq(head, "exit") {
        Command::Exit
    } else if str_eq(head, "add") {
        if toks.len() >= 2 {
            proof {
                assert(tokv[1] == toks@[1]@);
            }
            let text = trim_str(toks[1].as_str());
            if !text.is_empty() {
                Command::Add(String::from_str(text))
            } else {
                Command::Error(String::from_str(
                    "[add] requires a non-empty text parameter [-text]",
                ))
            }
        } else {
            Command::Error(String::from_str("[add] requires a non-empty text parameter [-text]"))
        }
    } else if str_eq(head, "update") {
        if toks.len() < 3 {
            Command::Error(String::from_str(
                "The first parameter should be a positive integer, ex. [update [-123] [-some text]]",
            ))
        } else {
            proof {
                assert(tokv[1] == toks@[1]@);
                assert(tokv[2] == toks@[2]@);
            }
            let arg = trim_str(toks[1].as_str());
            match crate::num::parse_u32_token(arg) {
                Some(v) => {
                    proof {
                        let o = token_num(spec_trim(tokv[1]));
                        crate::num::lemma_token_num_nonneg(spec_trim(tokv[1]));
                        assert(o is Some);
                        assert(o->0 <= u32::MAX);
                        assert(v == o->0 as u32);
                        assert(v as int == o->0);
                    }
                    if v <= limit {
                        let text = trim_str(toks[2].as_str());
                        Command::UpdateText(v, String::from_str(text))
                    } else {
                        Command::Error(String::from_str(
                            "The specified index is outside of the element range. Try [list] to check the indexes",
                        ))
                    }
                },
                None => Command::Error(String::from_str(
                    "The first parameter should be a positive integer, ex. [update [-123] [-some text]]",
                )),
            }
        }
    } else if str_eq(head, "complete") {
        if toks.len() < 2 {
            Command::Error(String::from_str(
                "The first parameter should be a positive integer, ex. [complete [-123]]",
            ))
        } else {
            proof {
                assert(tokv[1] == toks@[1]@);
            }
            let arg = trim_str(toks[1].as_str());
            match crate::num::parse_u32_token(arg) {
                Some(v) => {
                    proof {
                        let o = token_num(spec_trim(tokv[1]));
                        crate::num::lemma_token_num_nonneg(spec_trim(tokv[1]));
                        assert(o is Some);
                        assert(o->0 <= u32::MAX);
                        assert(v == o->0 as u32);
                        assert(v as int == o->0);
                    }
                    if v <= limit {
                        Command::Complete(v)
                    } else {
                        Command::Error(String::from_str(
                            "The specified index is outside of the element range. Try [list] to check the indexes",
                        ))
                    }
                },
                None => Command::Error(String::from_str(
                    "The first parameter should be a positive integer, ex. [complete [-123]]",
                )),
            }
        }
    } else if str_eq(head, "load") {
        if toks.len() >= 2 {
            proof {
                assert(tokv[1] == toks@[1]@);
            }
            let name = trim_str(toks[1].as_str());
            if !name.is_empty() {
                Command::Load(String::from_str(name))
            } else {
                Command::Error(String::from_str(
                    "A filename parameter is required, ex. [save [-mylist]]",
                ))
            }
        } else {
            Command::Error(String::from_str(
                "A filename parameter is required, ex. [save [-mylist]]",
            ))
        }
    } else if str_eq(head, "save") {
        if toks.len() >= 2 {
            proof {
                assert(tokv[1] == toks@[1]@);
            }
            let name = trim_str(toks[1].as_str());
            if !name.is_empty() {
                Command::Save(String::from_str(name))
            } else {
                Command::Error(String::from_str(
                    "A filename parameter is required, ex. [save [-mylist]]",
                ))
            }
        } else {
            Command::Error(String::from_str(
                "A filename parameter is required, ex. [save [-mylist]]",
            ))
        }
    } else {
        Command::Error(String::from_str(
            "Input not recognized as a command. Commands are case sensitive. Use command [help] for available commands.",
        ))
    }
}

} // verus!
