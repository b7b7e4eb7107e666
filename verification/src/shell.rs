//! The command language of the interactive session: a line holds commands
//! separated by `;`, a command is split into arguments as a shell does,
//! and a few short commands (`ls`, `cd`, `select`, `new`, `rm`) stand
//! beside the full ones.
use vstd::prelude::*;
use crate::context::Context;
use crate::text::{parse_i32, spec_parse_i32, spec_split, split_on, str_eq};

verus! {

/// Characters with the Unicode `White_Space` property, the ones that
/// `char::is_whitespace` accepts.
pub open spec fn is_white(c: char) -> bool {
    let u = c as u32;
    (0x9 <= u <= 0xD) || u == 0x20 || u == 0x85 || u == 0xA0 || u == 0x1680 || (0x2000 <= u <= 0x200A)
        || u == 0x2028 || u == 0x2029 || u == 0x202F || u == 0x205F || u == 0x3000
}

/// Whether `c` is white space, as `is_white` says.
pub fn white(c: char) -> (r: bool)
    ensures
        r == is_white(c),
{
    let u = c as u32;
    (0x9 <= u && u <= 0xD) || u == 0x20 || u == 0x85 || u == 0xA0 || u == 0x1680 || (0x2000 <= u && u
        <= 0x200A) || u == 0x2028 || u == 0x2029 || u == 0x202F || u == 0x205F || u == 0x3000
}

/// `s` without white space at either end, as `str::trim` gives it.
pub open spec fn trimmed(s: Seq<char>) -> Seq<char>
    decreases s.len(),
{
    if s.len() > 0 && is_white(s[0]) {
        trimmed(s.drop_first())
    } else if s.len() > 0 && is_white(s.last()) {
        trimmed(s.drop_last())
    } else {
        s
    }
}

/// The part of `s` from `a` to `b` is `s` trimmed when nothing white is
/// outside it and its ends are not white.
proof fn lemma_trimmed_range(s: Seq<char>, a: int, b: int)
    requires
        0 <= a <= b <= s.len(),
        forall|i: int| 0 <= i < a ==> is_white(#[trigger] s[i]),
        forall|i: int| b <= i < s.len() ==> is_white(#[trigger] s[i]),
        a < b ==> !is_white(s[a]) && !is_white(s[b - 1]),
    ensures
        trimmed(s) == s.subrange(a, b),
    decreases s.len(),
{
    if s.len() > 0 && is_white(s[0]) {
        let t = s.drop_first();
        if a > 0 {
            assert forall|i: int| 0 <= i < a - 1 implies is_white(#[trigger] t[i]) by {
                assert(t[i] == s[i + 1]);
            }
            assert forall|i: int| b - 1 <= i < t.len() implies is_white(#[trigger] t[i]) by {
                assert(t[i] == s[i + 1]);
            }
            lemma_trimmed_range(t, a - 1, b - 1);
            assert(t.subrange(a - 1, b - 1) =~= s.subrange(a, b));
        } else {
            assert(b == 0);
            assert forall|i: int| 0 <= i < t.len() implies is_white(#[trigger] t[i]) by {
                assert(t[i] == s[i + 1]);
            }
            lemma_trimmed_range(t, 0, 0);
            assert(t.subrange(0, 0) =~= s.subrange(a, b));
        }
    } else if s.len() > 0 && is_white(s.last()) {
        let t = s.drop_last();
        assert(b < s.len() || a == b);
        if b == s.len() {
            assert(a == b);
            assert(is_white(s[0]) || a == 0);
        }
        let bb = if b == s.len() { b - 1 } else { b };
        let aa = if a > bb { bb } else { a };
        assert forall|i: int| 0 <= i < aa implies is_white(#[trigger] t[i]) by {
            assert(t[i] == s[i]);
        }
        assert forall|i: int| bb <= i < t.len() implies is_white(#[trigger] t[i]) by {
            assert(t[i] == s[i]);
        }
        lemma_trimmed_range(t, aa, bb);
        assert(t.subrange(aa, bb) =~= s.subrange(a, b));
    } else {
        if s.len() > 0 {
            assert(a == 0) by {
                if a > 0 {
                    assert(is_white(s[0]));
                }
            }
            assert(b == s.len()) by {
                if b < s.len() {
                    assert(is_white(s[s.len() - 1]));
                }
            }
        }
        assert(s.subrange(a, b) =~= s);
    }
}

/// `s` without white space at either end.
pub fn trim_white(s: &str) -> (r: String)
    ensures
        r@ == trimmed(s@),
{
    let n = s.unicode_len();
    let mut a: usize = 0;
    while a < n && white(s.get_char(a))
        invariant
            n == s@.len(),
            a <= n,
            forall|i: int| 0 <= i < a ==> is_white(#[trigger] s@[i]),
        decreases n - a,
    {
        a = a + 1;
    }
    let mut b: usize = n;
    while b > a && white(s.get_char(b - 1))
        invariant
            n == s@.len(),
            a <= b <= n,
            forall|i: int| b <= i < n ==> is_white(#[trigger] s@[i]),
        decreases b,
    {
        b = b - 1;
    }
    proof {
        lemma_trimmed_range(s@, a as int, b as int);
    }
    s.substring_char(a, b).to_string()
}

/// The words of `s` that white space separates, as `str::split_whitespace`
/// gives them, with the word still being read: the state after `s`.
pub open spec fn words_state(s: Seq<char>) -> (Seq<Seq<char>>, Seq<char>)
    decreases s.len(),
{
    if s.len() == 0 {
        (Seq::empty(), Seq::empty())
    } else {
        let (ws, cur) = words_state(s.drop_last());
        if is_white(s.last()) {
            if cur.len() > 0 {
                (ws.push(cur), Seq::empty())
            } else {
                (ws, cur)
            }
        } else {
            (ws, cur.push(s.last()))
        }
    }
}

/// The words of `s` that white space separates.
pub open spec fn words(s: Seq<char>) -> Seq<Seq<char>> {
    let (ws, cur) = words_state(s);
    if cur.len() > 0 {
        ws.push(cur)
    } else {
        ws
    }
}

/// The views of some strings.
pub open spec fn views(v: Seq<String>) -> Seq<Seq<char>> {
    v.map_values(|x: String| x@)
}

/// The words of `s` that white space separates.
pub fn split_words(s: &str) -> (r: Vec<String>)
    ensures
        views(r@) == words(s@),
{
    let n = s.unicode_len();
    let mut out: Vec<String> = Vec::new();
    let mut start: usize = 0;
    let mut i: usize = 0;
    while i < n
        invariant
            n == s@.len(),
            start <= i <= n,
            views(out@) == words_state(s@.take(i as int)).0,
            s@.subrange(start as int, i as int) == words_state(s@.take(i as int)).1,
        decreases n - i,
    {
        let c = s.get_char(i);
        proof {
            assert(s@.take(i + 1).drop_last() =~= s@.take(i as int));
            assert(s@.take(i + 1).last() == c);
        }
        if white(c) {
            if start < i {
                let w = s.substring_char(start, i).to_string();
                let ghost before = out@;
                out.push(w);
                proof {
                    assert(views(out@) =~= views(before).push(w@));
                }
            }
            start = i + 1;
            proof {
                assert(s@.subrange(start as int, i + 1) =~= Seq::<char>::empty());
            }
        } else {
            proof {
                assert(s@.subrange(start as int, i + 1) =~= s@.subrange(start as int, i as int).push(c));
            }
        }
        i = i + 1;
    }
    proof {
        assert(s@.take(n as int) =~= s@);
    }
    if start < n {
        let w = s.substring_char(start, n).to_string();
        let ghost before = out@;
        out.push(w);
        proof {
            assert(views(out@) =~= views(before).push(w@));
        }
    }
    out
}

/// The commands of a session line: the parts between `;`, trimmed, the
/// empty ones left out.
pub open spec fn line_commands(line: Seq<char>) -> Seq<Seq<char>> {
    spec_split(line, ';').map_values(|p: Seq<char>| trimmed(p)).filter(|p: Seq<char>| p.len() > 0)
}

/// The commands of a session line, as `line_commands` says.
pub fn repl_commands(line: &str) -> (r: Vec<String>)
    ensures
        views(r@) == line_commands(line@),
{
    let parts = split_on(line, ';');
    let ghost ps = spec_split(line@, ';');
    let ghost tr = ps.map_values(|p: Seq<char>| trimmed(p));
    let mut out: Vec<String> = Vec::new();
    let mut k: usize = 0;
    while k < parts.len()
        invariant
            k <= parts@.len(),
            parts@.len() == ps.len(),
            forall|j: int| 0 <= j < parts@.len() ==> #[trigger] parts@[j]@ == ps[j],
            tr == ps.map_values(|p: Seq<char>| trimmed(p)),
            views(out@) == tr.take(k as int).filter(|p: Seq<char>| p.len() > 0),
        decreases parts@.len() - k,
    {
        let t = trim_white(parts[k].as_str());
        proof {
            assert(tr.take(k + 1) =~= tr.take(k as int).push(tr[k as int]));
            tr.take(k as int).lemma_filter_push(tr[k as int], |p: Seq<char>| p.len() > 0);
        }
        if t.unicode_len() > 0 {
            let ghost before = out@;
            out.push(t);
            proof {
                assert(views(out@) =~= views(before).push(t@));
            }
        }
        k = k + 1;
    }
    proof {
        assert(tr.take(k as int) =~= tr);
    }
    out
}

/// What `shlex::split` makes of `line`: its words as a POSIX shell splits
/// them, or nothing when the quoting is not closed.
pub uninterp spec fn shlex_words(line: Seq<char>) -> Option<Seq<Seq<char>>>;

/// Splits `line` into words with `shlex::split`. The contract says only that
/// the result is the one `shlex_words` names; the quoting rules are the
/// outside crate's.
#[verifier::external_body]
fn shell_split(line: &str) -> (r: Option<Vec<String>>)
    ensures
        match r {
            Some(v) => shlex_words(line@) == Some(views(v@)),
            None => shlex_words(line@) is None,
        },
{
    shlex::split(line)
}

/// The name under which the command line tool parses its arguments.
pub open spec fn program_name() -> Seq<char> {
    seq!['f', 'i', 'l', 'e', '_', 'c', 'l', 'a', 's', 's', 'i', 'f', 'i', 'c', 'a', 't', 'i', 'o', 'n', '_', 'c', 'l', 'i']
}

/// The argument list for a command whose words are `words`: the program
/// name first, then the words, none when they could not be split.
pub fn args_from_words(words: Option<Vec<String>>) -> (r: Vec<String>)
    ensures
        views(r@) == seq![program_name()] + match words {
            Some(v) => views(v@),
            None => Seq::empty(),
        },
{
    let name = "file_classification_cli";
    proof {
        reveal_strlit("file_classification_cli");
        assert(name@ =~= program_name());
    }
    let mut out: Vec<String> = Vec::new();
    out.push(name.to_string());
    proof {
        assert(views(out@) =~= seq![program_name()]);
    }
    match words {
        Some(v) => {
            let ghost wv = views(v@);
            let mut k: usize = 0;
            while k < v.len()
                invariant
                    k <= v@.len(),
                    wv == views(v@),
                    views(out@) == seq![program_name()] + wv.take(k as int),
                decreases v@.len() - k,
            {
                let ghost before = out@;
                out.push(v[k].clone());
                proof {
                    assert(views(out@) =~= views(before).push(v@[k as int]@));
                    assert(wv.take(k + 1) =~= wv.take(k as int).push(wv[k as int]));
                    assert(seq![program_name()] + wv.take(k + 1) =~= (seq![program_name()] + wv.take(k as int)).push(wv[k as int]));
                }
                k = k + 1;
            }
            proof {
                assert(wv.take(k as int) =~= wv);
            }
        },
        None => {
            proof {
                assert(seq![program_name()] + Seq::<Seq<char>>::empty() =~= seq![program_name()]);
            }
        },
    }
    out
}

/// The argument list for one command of a session line: the program name,
/// then the command's words as `shlex::split` gives them.
pub fn command_args(command: &str) -> (r: Vec<String>)
    ensures
        views(r@) == seq![program_name()] + match shlex_words(command@) {
            Some(ws) => ws,
            None => Seq::empty(),
        },
{
    args_from_words(shell_split(command))
}

/// The kind of record a short command names.
#[derive(Clone, Copy, Debug, PartialEq, Eq, Structural)]
pub enum EntityKind {
    File,
    Group,
    Tag,
}

/// The short command whose usage was given wrongly.
#[derive(Clone, Copy, Debug, PartialEq, Eq, Structural)]
pub enum Usage {
    Select,
    New,
    Remove,
}

/// What a short command asks for.
#[derive(Debug)]
pub enum SimpleCommand {
    /// An empty line.
    Nothing,
    /// `ls`: list what relates to the selection.
    List,
    /// `cd <id>`: select a group.
    Enter(i32),
    /// `select <kind> <id>`.
    Select(EntityKind, i32),
    /// `new <kind> <name or path>`.
    Create(EntityKind, String),
    /// `rm <kind> <id>`.
    Remove(EntityKind, i32),
    /// `cd` without an id.
    MissingId,
    /// An id that is not a positive number.
    InvalidId,
    /// Too few words for the command.
    Usage(Usage),
    /// A kind other than `file`, `group` or `tag`.
    UnknownKind(String),
    /// Not a short command.
    NotSimple,
}

/// The id a word stands for, 0 when it is no number.
pub open spec fn id_word(w: Seq<char>) -> i32 {
    match spec_parse_i32(w) {
        Some(v) => v,
        None => 0,
    }
}

/// The kind a word names.
pub open spec fn kind_word(w: Seq<char>) -> Option<EntityKind> {
    if w == seq!['f', 'i', 'l', 'e'] {
        Some(EntityKind::File)
    } else if w == seq!['g', 'r', 'o', 'u', 'p'] {
        Some(EntityKind::Group)
    } else if w == seq!['t', 'a', 'g'] {
        Some(EntityKind::Tag)
    } else {
        None
    }
}

/// `cmd` is what the words `ws` ask for as a short command.
pub open spec fn simple_meaning(ws: Seq<Seq<char>>, cmd: SimpleCommand) -> bool {
    if ws.len() == 0 {
        cmd is Nothing
    } else if ws[0] == seq!['l', 's'] {
        cmd is List
    } else if ws[0] == seq!['c', 'd'] {
        if ws.len() < 2 {
            cmd is MissingId
        } else if id_word(ws[1]) <= 0 {
            cmd is InvalidId
        } else {
            cmd == SimpleCommand::Enter(id_word(ws[1]))
        }
    } else if ws[0] == seq!['s', 'e', 'l', 'e', 'c', 't'] {
        if ws.len() < 3 {
            cmd == SimpleCommand::Usage(Usage::Select)
        } else if id_word(ws[2]) <= 0 {
            cmd is InvalidId
        } else {
            match kind_word(ws[1]) {
                Some(k) => cmd == SimpleCommand::Select(k, id_word(ws[2])),
                None => cmd matches SimpleCommand::UnknownKind(w) && w@ == ws[1],
            }
        }
    } else if ws[0] == seq!['n', 'e', 'w'] {
        if ws.len() < 3 {
            cmd == SimpleCommand::Usage(Usage::New)
        } else {
            match kind_word(ws[1]) {
                Some(k) => cmd matches SimpleCommand::Create(k2, n) && k2 == k && n@ == ws[2],
                None => cmd matches SimpleCommand::UnknownKind(w) && w@ == ws[1],
            }
        }
    } else if ws[0] == seq!['r', 'm'] {
        if ws.len() < 3 {
            cmd == SimpleCommand::Usage(Usage::Remove)
        } else if id_word(ws[2]) <= 0 {
            cmd is InvalidId
        } else {
            match kind_word(ws[1]) {
                Some(k) => cmd == SimpleCommand::Remove(k, id_word(ws[2])),
                None => cmd matches SimpleCommand::UnknownKind(w) && w@ == ws[1],
            }
        }
    } else {
        cmd is NotSimple
    }
}

/// The id a word stands for, as `id_word` says.
fn id_of(w: &str) -> (r: i32)
    ensures
        r == id_word(w@),
{
    match parse_i32(w) {
        Some(v) => v,
        None => 0,
    }
}

/// The kind a word names, as `kind_word` says.
fn kind_of(w: &str) -> (r: Option<EntityKind>)
    ensures
        r == kind_word(w@),
{
    proof {
        reveal_strlit("file");
        reveal_strlit("group");
        reveal_strlit("tag");
        assert("file"@ =~= seq!['f', 'i', 'l', 'e']);
        assert("group"@ =~= seq!['g', 'r', 'o', 'u', 'p']);
        assert("tag"@ =~= seq!['t', 'a', 'g']);
    }
    if str_eq(w, "file") {
        Some(EntityKind::File)
    } else if str_eq(w, "group") {
        Some(EntityKind::Group)
    } else if str_eq(w, "tag") {
        Some(EntityKind::Tag)
    } else {
        None
    }
}

/// Reads `line` as a short command of the interactive session.
pub fn parse_simple_command(line: &str) -> (r: SimpleCommand)
    ensures
        simple_meaning(words(line@), r),
{
    let ws = split_words(line);
    proof {
        assert(views(ws@).len() == ws@.len());
        assert forall|k: int| 0 <= k < ws@.len() implies #[trigger] ws@[k]@ == words(line@)[k] by {
            assert(views(ws@)[k] == ws@[k]@);
        }
        reveal_strlit("ls");
        reveal_strlit("cd");
        reveal_strlit("select");
        reveal_strlit("new");
        reveal_strlit("rm");
        assert("ls"@ =~= seq!['l', 's']);
        assert("cd"@ =~= seq!['c', 'd']);
        assert("select"@ =~= seq!['s', 'e', 'l', 'e', 'c', 't']);
        assert("new"@ =~= seq!['n', 'e', 'w']);
        assert("rm"@ =~= seq!['r', 'm']);
    }
    if ws.len() == 0 {
        return SimpleCommand::Nothing;
    }
    let head = ws[0].as_str();
    if str_eq(head, "ls") {
        SimpleCommand::List
    } else if str_eq(head, "cd") {
        if ws.len() < 2 {
            return SimpleCommand::MissingId;
        }
        let id = id_of(ws[1].as_str());
        if id <= 0 {
            SimpleCommand::InvalidId
        } else {
            SimpleCommand::Enter(id)
        }
    } else if str_eq(head, "select") {
        if ws.len() < 3 {
            return SimpleCommand::Usage(Usage::Select);
        }
        let id = id_of(ws[2].as_str());
        if id <= 0 {
            return SimpleCommand::InvalidId;
        }
        match kind_of(ws[1].as_str()) {
            Some(k) => SimpleCommand::Select(k, id),
            None => SimpleCommand::UnknownKind(ws[1].clone()),
        }
    } else if str_eq(head, "new") {
        if ws.len() < 3 {
            return SimpleCommand::Usage(Usage::New);
        }
        match kind_of(ws[1].as_str()) {
            Some(k) => SimpleCommand::Create(k, ws[2].clone()),
            None => SimpleCommand::UnknownKind(ws[1].clone()),
        }
    } else if str_eq(head, "rm") {
        if ws.len() < 3 {
            return SimpleCommand::Usage(Usage::Remove);
        }
        let id = id_of(ws[2].as_str());
        if id <= 0 {
            return SimpleCommand::InvalidId;
        }
        match kind_of(ws[1].as_str()) {
            Some(k) => SimpleCommand::Remove(k, id),
            None => SimpleCommand::UnknownKind(ws[1].clone()),
        }
    } else {
        SimpleCommand::NotSimple
    }
}

/// The selection after the short command `cmd`: `cd` selects the group
/// alone, `select` the record of its kind alone; every other command
/// leaves the selection as it is.
pub open spec fn selection_after(c: Context, cmd: SimpleCommand) -> Context {
    match cmd {
        SimpleCommand::Enter(id) => Context { selected_file_id: None, selected_group_id: Some(id), selected_tag_id: None },
        SimpleCommand::Select(k, id) => match k {
            EntityKind::File => Context { selected_file_id: Some(id), selected_group_id: None, selected_tag_id: None },
            EntityKind::Group => Context { selected_file_id: None, selected_group_id: Some(id), selected_tag_id: None },
            EntityKind::Tag => Context { selected_file_id: None, selected_group_id: None, selected_tag_id: Some(id) },
        },
        _ => c,
    }
}

/// Applies what the short command `cmd` does to the selection, and says
/// whether `cmd` is a short command at all.
pub fn apply_selection(context: &mut Context, cmd: &SimpleCommand) -> (r: bool)
    ensures
        *final(context) == selection_after(*old(context), *cmd),
        r == !(*cmd is NotSimple),
{
    match cmd {
        SimpleCommand::Enter(id) => context.select_group(*id),
        SimpleCommand::Select(k, id) => match k {
            EntityKind::File => context.select_file(*id),
            EntityKind::Group => context.select_group(*id),
            EntityKind::Tag => context.select_tag(*id),
        },
        _ => {},
    }
    match cmd {
        SimpleCommand::NotSimple => false,
        _ => true,
    }
}

/// Words that hold no white space, appended to a line, extend the word
/// being read.
proof fn lemma_words_state_word(s: Seq<char>, w: Seq<char>)
    requires
        forall|i: int| 0 <= i < w.len() ==> !is_white(#[trigger] w[i]),
    ensures
        words_state(s + w) == (words_state(s).0, words_state(s).1 + w),
    decreases w.len(),
{
    if w.len() == 0 {
        assert(s + w =~= s);
        assert(words_state(s).1 + w =~= words_state(s).1);
    } else {
        let w2 = w.drop_last();
        assert forall|i: int| 0 <= i < w2.len() implies !is_white(#[trigger] w2[i]) by {
            assert(w2[i] == w[i]);
        }
        lemma_words_state_word(s, w2);
        assert((s + w).drop_last() =~= s + w2);
        assert((s + w).last() == w.last());
        assert(!is_white(w[w.len() - 1]));
        assert(words_state(s).1 + w2.push(w.last()) =~= words_state(s).1 + w);
        assert((words_state(s).1 + w2).push(w.last()) =~= words_state(s).1 + w);
    }
}

/// A line of white space alone holds no word.
proof fn lemma_words_state_white(s: Seq<char>)
    requires
        forall|i: int| 0 <= i < s.len() ==> is_white(#[trigger] s[i]),
    ensures
        words_state(s).0.len() == 0,
        words_state(s).1.len() == 0,
    decreases s.len(),
{
    if s.len() > 0 {
        let t = s.drop_last();
        assert forall|i: int| 0 <= i < t.len() implies is_white(#[trigger] t[i]) by {
            assert(t[i] == s[i]);
        }
        lemma_words_state_white(t);
        assert(is_white(s[s.len() - 1]));
    }
}

/// A word holds at least one character and no white space.
pub open spec fn is_word(w: Seq<char>) -> bool {
    w.len() > 0 && forall|i: int| 0 <= i < w.len() ==> !is_white(#[trigger] w[i])
}

/// The words of `a`, a space and `b`, where `b` is a word, are those of
/// `a` followed by `b`, when `a` ends in a word.
proof fn lemma_words_then_word(a: Seq<char>, b: Seq<char>)
    requires
        words_state(a).1.len() > 0,
        is_word(b),
    ensures
        words_state(a + seq![' '] + b) == (words_state(a).0.push(words_state(a).1), b),
{
    let sp = a + seq![' '];
    assert(sp.drop_last() =~= a);
    assert(sp.last() == ' ');
    assert(is_white(' ')) by {
        assert((' ' as u32) == 0x20);
    }
    lemma_words_state_word(sp, b);
    assert(Seq::<char>::empty() + b =~= b);
}

/// The line `select <kind> <id>` selects the record of that kind alone when
/// the id is a positive number, and is refused as an invalid id, with the
/// selection kept, otherwise.
pub proof fn law_select_line(t: Seq<char>, n: Seq<char>, c: Context, cmd: SimpleCommand)
    requires
        kind_word(t) is Some,
        is_word(n),
        simple_meaning(words(seq!['s', 'e', 'l', 'e', 'c', 't'] + seq![' '] + t + seq![' '] + n), cmd),
    ensures
        id_word(n) > 0 ==> cmd == SimpleCommand::Select(kind_word(t)->0, id_word(n)),
        id_word(n) <= 0 ==> cmd is InvalidId && selection_after(c, cmd) == c,
        id_word(n) > 0 && t == seq!['f', 'i', 'l', 'e'] ==> selection_after(c, cmd)
            == (Context { selected_file_id: Some(id_word(n)), selected_group_id: None, selected_tag_id: None }),
        id_word(n) > 0 && t == seq!['g', 'r', 'o', 'u', 'p'] ==> selection_after(c, cmd)
            == (Context { selected_file_id: None, selected_group_id: Some(id_word(n)), selected_tag_id: None }),
        id_word(n) > 0 && t == seq!['t', 'a', 'g'] ==> selection_after(c, cmd)
            == (Context { selected_file_id: None, selected_group_id: None, selected_tag_id: Some(id_word(n)) }),
{
    let sel = seq!['s', 'e', 'l', 'e', 'c', 't'];
    assert(is_word(sel)) by {
        assert forall|i: int| 0 <= i < sel.len() implies !is_white(#[trigger] sel[i]) by {
            assert(sel[i] == 's' || sel[i] == 'e' || sel[i] == 'l' || sel[i] == 'c' || sel[i] == 't');
        }
    }
    assert(is_word(t)) by {
        assert forall|i: int| 0 <= i < t.len() implies !is_white(#[trigger] t[i]) by {
            assert(t[i] == 'f' || t[i] == 'i' || t[i] == 'l' || t[i] == 'e' || t[i] == 'g' || t[i] == 'r'
                || t[i] == 'o' || t[i] == 'u' || t[i] == 'p' || t[i] == 't' || t[i] == 'a');
        }
    }
    lemma_words_state_word(Seq::<char>::empty(), sel);
    assert(Seq::<char>::empty() + sel =~= sel);
    lemma_words_then_word(sel, t);
    let st = sel + seq![' '] + t;
    lemma_words_then_word(st, n);
    let ws = words(st + seq![' '] + n);
    assert(ws =~= seq![sel, t, n]);
}

/// The line `cd <id>` selects the group alone when the id is a positive
/// number, and is refused as an invalid id, with the selection kept,
/// otherwise.
pub proof fn law_cd_line(n: Seq<char>, c: Context, cmd: SimpleCommand)
    requires
        is_word(n),
        simple_meaning(words(seq!['c', 'd'] + seq![' '] + n), cmd),
    ensures
        id_word(n) > 0 ==> cmd == SimpleCommand::Enter(id_word(n)) && selection_after(c, cmd)
            == (Context { selected_file_id: None, selected_group_id: Some(id_word(n)), selected_tag_id: None }),
        id_word(n) <= 0 ==> cmd is InvalidId && selection_after(c, cmd) == c,
{
    let cd = seq!['c', 'd'];
    assert(is_word(cd)) by {
        assert forall|i: int| 0 <= i < cd.len() implies !is_white(#[trigger] cd[i]) by {
            assert(cd[i] == 'c' || cd[i] == 'd');
        }
    }
    lemma_words_state_word(Seq::<char>::empty(), cd);
    assert(Seq::<char>::empty() + cd =~= cd);
    lemma_words_then_word(cd, n);
    assert(words(cd + seq![' '] + n) =~= seq![cd, n]);
}

/// A line of white space alone is an empty command: it changes nothing.
pub proof fn law_blank_line(line: Seq<char>, c: Context, cmd: SimpleCommand)
    requires
        forall|i: int| 0 <= i < line.len() ==> is_white(#[trigger] line[i]),
        simple_meaning(words(line), cmd),
    ensures
        cmd is Nothing,
        selection_after(c, cmd) == c,
{
    lemma_words_state_white(line);
}

/// A line whose first word is none of `ls`, `cd`, `select`, `new` and `rm`
/// is no short command, and changes nothing.
pub proof fn law_other_line(line: Seq<char>, c: Context, cmd: SimpleCommand)
    requires
        words(line).len() > 0,
        words(line)[0] != seq!['l', 's'],
        words(line)[0] != seq!['c', 'd'],
        words(line)[0] != seq!['s', 'e', 'l', 'e', 'c', 't'],
        words(line)[0] != seq!['n', 'e', 'w'],
        words(line)[0] != seq!['r', 'm'],
        simple_meaning(words(line), cmd),
    ensures
        cmd is NotSimple,
        selection_after(c, cmd) == c,
{
}

} // verus!
