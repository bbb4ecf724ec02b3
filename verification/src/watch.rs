//! The watch loop: a command is run whenever five-hour quota becomes available.
//!
//! The loop itself polls, prints, switches and runs; each of its decisions is taken here.

use vstd::prelude::*;

use crate::cli::CliError;
use crate::recommend::{leader_is_unique, leads, watch_standing, watch_standings, watch_target};
use crate::recommend::{rest_of, short_left, Row};
use crate::text::{chars_of, concat2, concat3, decimal, decimal_text, ends_with, has_char};
use crate::text::{is_white, is_white_space, signed_decimal, signed_text, starts_with, text_of};
use crate::text::{texts, trim, trim_start, trimmed, trimming_takes_off_white_space};

verus! {

/// The length of the first word of a text that starts with one.
pub open spec fn word_length(s: Seq<char>) -> int
    decreases s.len(),
{
    if s.len() == 0 || is_white(s[0]) {
        0
    } else {
        1 + word_length(s.drop_first())
    }
}

proof fn lemma_word_length(s: Seq<char>)
    ensures
        0 <= word_length(s) <= s.len(),
        forall|i: int| 0 <= i < word_length(s) ==> !is_white(#[trigger] s[i]),
        word_length(s) < s.len() ==> is_white(s[word_length(s)]),
    decreases s.len(),
{
    if s.len() > 0 && !is_white(s[0]) {
        let rest = s.drop_first();
        lemma_word_length(rest);
        assert forall|i: int| 0 <= i < word_length(s) implies !is_white(#[trigger] s[i]) by {
            if i > 0 {
                assert(rest[i - 1] == s[i]);
            }
        }
        if word_length(s) < s.len() {
            assert(rest[word_length(rest)] == s[word_length(s)]);
        }
    }
}

proof fn lemma_trim_start_shortens(s: Seq<char>)
    ensures
        trim_start(s).len() <= s.len(),
        trim_start(s).len() > 0 ==> !is_white(trim_start(s)[0]),
    decreases s.len(),
{
    if s.len() > 0 && is_white(s[0]) {
        lemma_trim_start_shortens(s.drop_first());
    }
}

/// The words of a text: the longest runs without white space.
pub open spec fn words(s: Seq<char>) -> Seq<Seq<char>>
    decreases s.len(),
    via words_decreases
{
    let t = trim_start(s);
    if t.len() == 0 {
        Seq::empty()
    } else {
        seq![t.take(word_length(t))] + words(t.skip(word_length(t)))
    }
}

#[via_fn]
proof fn words_decreases(s: Seq<char>) {
    let t = trim_start(s);
    lemma_trim_start_shortens(s);
    lemma_word_length(t);
}

/// The words of a text.
pub fn words_of(s: &str) -> (r: Vec<String>)
    ensures
        texts(r@) == words(s@),
{
    let v: Vec<char> = chars_of(s);
    let mut r: Vec<String> = Vec::new();
    let mut i: usize = 0;
    assert(s@.skip(0) == s@);
    assert(texts(r@) + words(s@) == words(s@));
    while i < v.len()
        invariant
            i <= v@.len(),
            v@ == s@,
            texts(r@) + words(s@.skip(i as int)) == words(s@),
        decreases v@.len() - i,
    {
        let ghost rest = s@.skip(i as int);
        if is_white_space(v[i]) {
            assert(rest.drop_first() == s@.skip(i + 1));
            assert(trim_start(rest) == trim_start(s@.skip(i + 1)));
            i = i + 1;
        } else {
            let start: usize = i;
            let ghost before = r@;
            assert(trim_start(rest) == rest);
            while i < v.len() && !is_white_space(v[i])
                invariant
                    start <= i <= v@.len(),
                    v@ == s@,
                    rest == s@.skip(start as int),
                    word_length(rest) == (i - start) + word_length(s@.skip(i as int)),
                decreases v@.len() - i,
            {
                assert(s@.skip(i as int).drop_first() == s@.skip(i + 1));
                i = i + 1;
            }
            assert(word_length(s@.skip(i as int)) == 0);
            assert(i > start) by {
                if i == start {
                    assert(!is_white(s@[i as int]));
                }
            }
            let word: String = text_of(&v, start, i);
            r.push(word);
            proof {
                assert(word@ == rest.take(i - start));
                assert(rest.skip(i - start) == s@.skip(i as int));
                assert(texts(r@) == texts(before).push(word@));
                assert(words(rest) == seq![word@] + words(s@.skip(i as int)));
                assert(texts(r@) + words(s@.skip(i as int)) == texts(before) + words(rest));
            }
        }
    }
    assert(s@.skip(i as int).len() == 0);
    r
}

/// Whether the first word of a command names an interpreter.
pub open spec fn interpreter(word: Seq<char>) -> bool {
    ||| word == "bash"@
    ||| word == "sh"@
    ||| word == "zsh"@
    ||| word == "python"@
    ||| word == "python3"@
    ||| word == "node"@
    ||| word == "perl"@
}

/// Whether the first word of a command names an interpreter.
fn is_interpreter(word: &str) -> (r: bool)
    ensures
        r == interpreter(word@),
{
    *word == *"bash" || *word == *"sh" || *word == *"zsh" || *word == *"python" || *word
        == *"python3" || *word == *"node" || *word == *"perl"
}

/// Whether a word is an option.
pub open spec fn is_option(word: Seq<char>) -> bool {
    word.len() > 0 && word[0] == '-'
}

/// Whether the letter of an option says that the interpreter gets its program elsewhere than
/// from the next word, or that the next word belongs to the option.
pub open spec fn telling_letter(head: Seq<char>, c: char) -> bool {
    if head == "python"@ || head == "python3"@ {
        c == 'c' || c == 'm' || c == 'W' || c == 'X'
    } else if head == "node"@ {
        c == 'e' || c == 'p' || c == 'r' || c == 'C'
    } else if head == "perl"@ {
        c == 'e' || c == 'E' || c == 'I'
    } else {
        c == 'c' || c == 's' || c == 'o' || c == 'O'
    }
}

/// Whether a script may be named by the word after this option: the option is one of single
/// letters, as in `sh -e run.sh`, and none of them tells otherwise, as in `bash -c run.sh`.
pub open spec fn leads_to_script(head: Seq<char>, option: Seq<char>) -> bool {
    &&& option.len() >= 2
    &&& option[0] == '-'
    &&& option[1] != '-'
    &&& forall|i: int| 1 <= i < option.len() ==> !telling_letter(head, #[trigger] option[i])
}

/// Whether a script may be named by the word after this option.
fn may_lead_to_script(head: &str, option: &str) -> (r: bool)
    ensures
        r == leads_to_script(head@, option@),
{
    let v: Vec<char> = chars_of(option);
    if v.len() < 2 || v[0] != '-' || v[1] == '-' {
        return false;
    }
    let python: bool = *head == *"python" || *head == *"python3";
    let node: bool = *head == *"node";
    let perl: bool = *head == *"perl";
    let mut i: usize = 1;
    while i < v.len()
        invariant
            1 <= i <= v@.len(),
            v@ == option@,
            python == (head@ == "python"@ || head@ == "python3"@),
            node == (head@ == "node"@),
            perl == (head@ == "perl"@),
            forall|k: int| 1 <= k < i ==> !telling_letter(head@, #[trigger] option@[k]),
        decreases v@.len() - i,
    {
        let c: char = v[i];
        let telling: bool = if python {
            c == 'c' || c == 'm' || c == 'W' || c == 'X'
        } else if node {
            c == 'e' || c == 'p' || c == 'r' || c == 'C'
        } else if perl {
            c == 'e' || c == 'E' || c == 'I'
        } else {
            c == 'c' || c == 's' || c == 'o' || c == 'O'
        };
        assert(telling == telling_letter(head@, option@[i as int]));
        if telling {
            return false;
        }
        i = i + 1;
    }
    true
}

/// Whether a character has no meaning of its own to a shell.
pub open spec fn name_char(c: char) -> bool {
    'a' <= c <= 'z' || 'A' <= c <= 'Z' || '0' <= c <= '9' || c == '.' || c == '_' || c == '-' || c
        > '~'
}

/// Whether a word is the name of a script for one of the interpreters: it ends like one and is
/// no more than a name to a shell.
pub open spec fn script_name(word: Seq<char>) -> bool {
    script_ending(word) && forall|i: int| 0 <= i < word.len() ==> name_char(#[trigger] word[i])
}

/// Whether a word ends like the name of a script for one of the interpreters.
pub open spec fn script_ending(word: Seq<char>) -> bool {
    ||| ".sh"@.is_suffix_of(word)
    ||| ".bash"@.is_suffix_of(word)
    ||| ".zsh"@.is_suffix_of(word)
    ||| ".py"@.is_suffix_of(word)
    ||| ".js"@.is_suffix_of(word)
    ||| ".mjs"@.is_suffix_of(word)
    ||| ".cjs"@.is_suffix_of(word)
    ||| ".pl"@.is_suffix_of(word)
}

/// Whether a word is the name of a script for one of the interpreters.
fn is_script_name(word: &str) -> (r: bool)
    ensures
        r == script_name(word@),
{
    let v: Vec<char> = chars_of(word);
    let mut i: usize = 0;
    while i < v.len()
        invariant
            i <= v@.len(),
            v@ == word@,
            forall|k: int| 0 <= k < i ==> name_char(#[trigger] word@[k]),
        decreases v@.len() - i,
    {
        let c: char = v[i];
        let plain: bool = ('a' <= c && c <= 'z') || ('A' <= c && c <= 'Z') || ('0' <= c && c <= '9')
            || c == '.' || c == '_' || c == '-' || c > '~';
        if !plain {
            assert(!name_char(word@[i as int]));
            return false;
        }
        i = i + 1;
    }
    ends_with(word, ".sh") || ends_with(word, ".bash") || ends_with(word, ".zsh") || ends_with(
        word,
        ".py",
    ) || ends_with(word, ".js") || ends_with(word, ".mjs") || ends_with(word, ".cjs") || ends_with(
        word,
        ".pl",
    )
}

/// Whether a word after an interpreter names a script: one with a slash does, and `first`, where
/// only options that lead to a script came before, also one that is the name of a script.
/// Options, redirections and pipes do not.
pub open spec fn names_script(word: Seq<char>, first: bool) -> bool {
    &&& !is_option(word)
    &&& word.contains('/') || (first && script_name(word))
    &&& !(word.len() > 0 && (word[0] == '>' || word[0] == '|'))
}

/// The script among the words that follow the interpreter `head`; `first` says whether only
/// options that lead to a script came before them.
pub open spec fn script_among(head: Seq<char>, rest: Seq<Seq<char>>, first: bool) -> Option<
    Seq<char>,
>
    decreases rest.len(),
{
    if rest.len() == 0 {
        None
    } else if names_script(rest[0], first) {
        Some(rest[0])
    } else {
        script_among(head, rest.drop_first(), first && leads_to_script(head, rest[0]))
    }
}

/// The script that a command runs, as far as its words tell.
pub open spec fn script(command: Seq<char>) -> Option<Seq<char>> {
    let w = words(command);
    if w.len() == 0 {
        None
    } else if interpreter(w[0]) {
        script_among(w[0], w.drop_first(), true)
    } else if ("./"@.is_prefix_of(w[0]) || "/"@.is_prefix_of(w[0])) && w[0].contains('.') {
        Some(w[0])
    } else {
        None
    }
}

/// Whether a word starts with the character.
fn begins_with(word: &str, c: char) -> (r: bool)
    ensures
        r == (word@.len() > 0 && word@[0] == c),
{
    let v: Vec<char> = chars_of(word);
    v.len() > 0 && v[0] == c
}

/// The script that a command runs, as far as its words tell: `run.sh` in `bash run.sh`,
/// `sh -e run.sh` and the like, or a command that is itself a path.
pub fn extract_script_path(cmd: &str) -> (r: Option<String>)
    ensures
        match r {
            Some(path) => script(cmd@) == Some(path@),
            None => script(cmd@) is None,
        },
{
    let tokens: Vec<String> = words_of(cmd);
    let ghost w = words(cmd@);
    if tokens.len() == 0 {
        assert(w.len() == 0);
        return None;
    }
    assert(w.len() == tokens@.len());
    assert(w[0] == tokens@[0]@);
    let head: &str = tokens[0].as_str();
    if is_interpreter(head) {
        let mut first: bool = true;
        let mut i: usize = 1;
        assert(w.skip(1) == w.drop_first());
        while i < tokens.len()
            invariant
                1 <= i <= tokens@.len(),
                w == texts(tokens@),
                w == words(cmd@),
                w.len() > 0,
                interpreter(w[0]),
                w[0] == head@,
                script(cmd@) == script_among(head@, w.skip(i as int), first),
            decreases tokens@.len() - i,
        {
            let t: &str = tokens[i].as_str();
            let ghost rest = w.skip(i as int);
            proof {
                assert(rest[0] == tokens@[i as int]@);
                assert(rest.drop_first() == w.skip(i + 1));
            }
            let option: bool = begins_with(t, '-');
            if !option && (has_char(t, '/') || (first && is_script_name(t))) && !begins_with(t, '>')
                && !begins_with(t, '|') {
                return Some(t.to_string());
            }
            first = first && may_lead_to_script(head, t);
            i = i + 1;
        }
        assert(w.skip(i as int).len() == 0);
        return None;
    }
    if (starts_with(head, "./") || starts_with(head, "/")) && has_char(head, '.') {
        return Some(head.to_string());
    }
    None
}

/// The script that a command runs, where it does not exist. `present` says whether the path
/// that `extract_script_path` gives is there.
pub fn missing_script(cmd: &str, present: bool) -> (r: Option<String>)
    ensures
        match r {
            Some(path) => !present && script(cmd@) == Some(path@),
            None => present || script(cmd@) is None,
        },
{
    if present {
        None
    } else {
        extract_script_path(cmd)
    }
}

/// The words of a command line in one string, with a blank between each two.
pub open spec fn joined(parts: Seq<Seq<char>>) -> Seq<char>
    decreases parts.len(),
{
    if parts.len() == 0 {
        Seq::empty()
    } else if parts.len() == 1 {
        parts[0]
    } else {
        joined(parts.drop_last()) + " "@ + parts.last()
    }
}

/// The command that the arguments make up.
pub fn join_command(parts: &Vec<String>) -> (r: String)
    ensures
        r@ == joined(texts(parts@)),
{
    let mut r: String = String::new();
    let mut i: usize = 0;
    let ghost all = texts(parts@);
    while i < parts.len()
        invariant
            i <= parts@.len(),
            all == texts(parts@),
            r@ == joined(all.take(i as int)),
        decreases parts@.len() - i,
    {
        if i > 0 {
            r.append(" ");
        }
        r.append(parts[i].as_str());
        proof {
            assert(all.take(i + 1).drop_last() == all.take(i as int));
            assert(all.take(i + 1).last() == parts@[i as int]@);
            if i == 0 {
                assert(all.take(1).len() == 1);
                assert(all.take(1)[0] == parts@[0]@);
                assert(r@ == all.take(1)[0]);
            }
        }
        i = i + 1;
    }
    assert(all.take(i as int) == all);
    r
}

/// The command without white space around it, where there is one.
pub fn check_command(cmd: &str) -> (r: Result<String, CliError>)
    ensures
        if trimmed(cmd@).len() == 0 {
            r == Err::<String, CliError>(CliError::EmptyCommand)
        } else {
            r matches Ok(command) && command@ == trimmed(cmd@)
        },
        r is Err <==> forall|i: int| 0 <= i < cmd@.len() ==> is_white(#[trigger] cmd@[i]),
{
    proof {
        trimming_takes_off_white_space(cmd@);
    }
    let t: String = trim(cmd);
    if t.as_str().is_empty() {
        Err(CliError::EmptyCommand)
    } else {
        Ok(t)
    }
}

/// What the shell's look at a command comes to: `success` is its verdict, `words` what it
/// said.
pub fn syntax_verdict(command: &str, success: bool, words: &str) -> (r: Result<(), CliError>)
    ensures
        if success {
            r is Ok
        } else {
            r matches Err(CliError::Syntax(refused, why)) && refused@ == command@ && why@
                == trimmed(words@)
        },
{
    if success {
        Ok(())
    } else {
        Err(CliError::Syntax(command.to_string(), trim(words)))
    }
}

/// The greatest size of the watch log, in bytes.
pub const WATCH_LOG_MAX_BYTES: usize = 102_400;

/// What is kept of a watch log: its end, where it has grown too large.
pub fn log_tail(data: Vec<u8>) -> (r: Vec<u8>)
    ensures
        data@.len() <= WATCH_LOG_MAX_BYTES ==> r@ == data@,
        data@.len() > WATCH_LOG_MAX_BYTES ==> r@ == data@.skip(
            data@.len() - WATCH_LOG_MAX_BYTES,
        ),
        r@.is_suffix_of(data@),
        r@.len() <= 102_400,
        r@.len() == data@.len() || r@.len() == 102_400,
{
    if data.len() <= WATCH_LOG_MAX_BYTES {
        return data;
    }
    let start: usize = data.len() - WATCH_LOG_MAX_BYTES;
    let mut r: Vec<u8> = Vec::new();
    let mut i: usize = start;
    while i < data.len()
        invariant
            start <= i <= data@.len(),
            r@ == data@.subrange(start as int, i as int),
        decreases data@.len() - i,
    {
        r.push(data[i]);
        assert(data@.subrange(start as int, i + 1) == data@.subrange(start as int, i as int).push(
            data@[i as int],
        ));
        i = i + 1;
    }
    r
}

/// Where the watch loop stands.
#[derive(Debug, Clone, Copy, PartialEq, Eq)]
pub struct WatchState {
    /// How many runs are complete.
    pub done: usize,
    /// Whether there was quota in the last round that was acted on; nothing before that.
    pub prev_available: Option<bool>,
}

/// What the watch loop does in a round, after the switch.
#[derive(Debug, Clone, Copy, PartialEq, Eq, Structural)]
pub enum WatchNext {
    /// All runs are complete: stop.
    Finish,
    /// Nobody has quota: wait.
    AwaitQuota,
    /// There is quota, but the command ran for it already, or was not to run at the start.
    AwaitEdge,
    /// The command is due, but its script is not there yet: wait for it.
    AwaitScript,
    /// Run the command.
    Run,
}

/// The decisions of one round.
#[derive(Debug, Clone, Copy, PartialEq, Eq)]
pub struct WatchRound {
    /// The row whose account is switched to.
    pub switch_to: Option<usize>,
    pub next: WatchNext,
}

/// Whether the command is due: quota has come up since the last round, or is there in the
/// first round and the command is to run at the start.
pub open spec fn fires(state: WatchState, has_quota: bool, run_on_start: bool) -> bool {
    has_quota && match state.prev_available {
        None => run_on_start,
        Some(before) => !before,
    }
}

/// What a round does after the switch.
pub open spec fn next_action(
    state: WatchState,
    total: usize,
    has_quota: bool,
    run_on_start: bool,
    script_missing: bool,
) -> WatchNext {
    if state.done >= total {
        WatchNext::Finish
    } else if !has_quota {
        WatchNext::AwaitQuota
    } else if !fires(state, has_quota, run_on_start) {
        WatchNext::AwaitEdge
    } else if script_missing {
        WatchNext::AwaitScript
    } else {
        WatchNext::Run
    }
}

/// Whether an account has something left of its five-hour window.
pub open spec fn any_quota(rows: Seq<Row>) -> bool {
    exists|i: int| 0 <= i < rows.len() && short_left(#[trigger] rows[i]) > 0
}

fn quota_anywhere(rows: &Vec<Row>) -> (r: bool)
    ensures
        r == any_quota(rows@),
{
    let mut i: usize = 0;
    while i < rows.len()
        invariant
            i <= rows@.len(),
            forall|k: int| 0 <= k < i ==> short_left(#[trigger] rows@[k]) <= 0,
        decreases rows@.len() - i,
    {
        if rest_of(&rows[i]).0 > 0 {
            assert(short_left(rows@[i as int]) > 0);
            return true;
        }
        i = i + 1;
    }
    false
}

/// Whether a row can be switched to.
pub open spec fn any_target(rows: Seq<Row>) -> bool {
    exists|i: int| 0 <= i < rows.len() && watch_standing(#[trigger] rows[i]) is Some
}

/// The place of the first active row.
fn active_row(rows: &Vec<Row>) -> (r: Option<usize>)
    ensures
        match r {
            Some(i) => i < rows@.len() && rows@[i as int].account.active && forall|k: int|
                0 <= k < i ==> !(#[trigger] rows@[k]).account.active,
            None => forall|k: int| 0 <= k < rows@.len() ==> !(#[trigger] rows@[k]).account.active,
        },
{
    let mut i: usize = 0;
    while i < rows.len()
        invariant
            i <= rows@.len(),
            forall|k: int| 0 <= k < i ==> !(#[trigger] rows@[k]).account.active,
        decreases rows@.len() - i,
    {
        if rows[i].account.active {
            return Some(i);
        }
        i = i + 1;
    }
    None
}

/// Whether the row at `i` is the first active one.
pub open spec fn first_active(rows: Seq<Row>, i: int) -> bool {
    rows[i].account.active && forall|k: int| 0 <= k < i ==> !(#[trigger] rows[k]).account.active
}

/// Decides a round of the watch loop. The command is due by what any account has left; the
/// recommended account among those that take part in routing is switched to whether the
/// command is due or not.
pub fn watch_round(
    rows: &Vec<Row>,
    state: &WatchState,
    total: usize,
    run_on_start: bool,
    script_missing: bool,
) -> (r: WatchRound)
    ensures
        r.next == next_action(*state, total, any_quota(rows@), run_on_start, script_missing),
        r.next == WatchNext::Finish || !any_target(rows@) ==> r.switch_to is None,
        r.next != WatchNext::Finish ==> forall|i: int|
            #![trigger leads(rows@, watch_standings(rows@), i, rows@.len() as int)]
            leads(rows@, watch_standings(rows@), i, rows@.len() as int) ==> if first_active(
                rows@,
                i,
            ) {
                r.switch_to is None
            } else {
                r.switch_to == Some(i as usize)
            },
{
    let target: Option<usize> = watch_target(rows);
    let has_quota: bool = quota_anywhere(rows);
    proof {
        if let Some(k) = target {
            assert(watch_standings(rows@)[k as int] == watch_standing(rows@[k as int]));
            assert(any_target(rows@));
            assert forall|i: int|
                #![trigger leads(rows@, watch_standings(rows@), i, rows@.len() as int)]
                leads(rows@, watch_standings(rows@), i, rows@.len() as int) implies i == k by {
                leader_is_unique(rows@, watch_standings(rows@), i, k as int);
            }
        } else {
            assert(!any_target(rows@));
            assert forall|i: int|
                #![trigger leads(rows@, watch_standings(rows@), i, rows@.len() as int)]
                !leads(rows@, watch_standings(rows@), i, rows@.len() as int) by {
                if 0 <= i < rows@.len() {
                    assert(watch_standings(rows@)[i] == watch_standing(rows@[i]));
                }
            }
        }
    }
    if state.done >= total {
        return WatchRound { switch_to: None, next: WatchNext::Finish };
    }
    let due: bool = has_quota && match state.prev_available {
        None => run_on_start,
        Some(before) => !before,
    };
    let switch_to: Option<usize> = match target {
        Some(k) => match active_row(rows) {
            Some(a) => if a == k {
                None
            } else {
                Some(k)
            },
            None => Some(k),
        },
        None => None,
    };
    let next: WatchNext = if !has_quota {
        WatchNext::AwaitQuota
    } else if !due {
        WatchNext::AwaitEdge
    } else if script_missing {
        WatchNext::AwaitScript
    } else {
        WatchNext::Run
    };
    WatchRound { switch_to, next }
}

/// Where the loop stands after a round. A command whose script is missing stays due.
pub open spec fn state_after(state: WatchState, next: WatchNext) -> WatchState {
    match next {
        WatchNext::Finish => state,
        WatchNext::AwaitQuota => WatchState { done: state.done, prev_available: Some(false) },
        WatchNext::AwaitEdge => WatchState { done: state.done, prev_available: Some(true) },
        WatchNext::AwaitScript => state,
        WatchNext::Run => WatchState {
            done: (state.done + 1) as usize,
            prev_available: Some(true),
        },
    }
}

impl WatchState {
    /// The loop before its first round.
    pub fn new() -> (r: WatchState)
        ensures
            r == (WatchState { done: 0, prev_available: None }),
    {
        WatchState { done: 0, prev_available: None }
    }

    /// Takes note of a round that was carried out.
    pub fn advance(&mut self, next: WatchNext)
        requires
            next == WatchNext::Run ==> old(self).done < usize::MAX,
        ensures
            *final(self) == state_after(*old(self), next),
    {
        match next {
            WatchNext::Finish => {},
            WatchNext::AwaitQuota => {
                self.prev_available = Some(false);
            },
            WatchNext::AwaitEdge => {
                self.prev_available = Some(true);
            },
            WatchNext::AwaitScript => {},
            WatchNext::Run => {
                self.done = self.done + 1;
                self.prev_available = Some(true);
            },
        }
    }
}

/// The command runs only where quota has come up since the round before, or in the first
/// round where it is to run at the start; never more often than asked for; and only while its
/// script is there.
pub proof fn command_runs_on_the_rising_edge(
    state: WatchState,
    total: usize,
    has_quota: bool,
    run_on_start: bool,
    script_missing: bool,
)
    requires
        next_action(state, total, has_quota, run_on_start, script_missing) == WatchNext::Run,
    ensures
        has_quota,
        state.prev_available == Some(false) || (state.prev_available is None && run_on_start),
        !script_missing,
        state.done < total,
        state_after(state, WatchNext::Run).done == state.done + 1,
        state_after(state, WatchNext::Run).done <= total,
{
}

/// Quota that comes up after a round without any makes the command run, whatever account it
/// is on and whether or not the command was to run at the start.
pub proof fn rising_edge_runs_the_command(
    state: WatchState,
    total: usize,
    run_on_start: bool,
    script_missing: bool,
)
    requires
        next_action(state, total, false, run_on_start, script_missing) == WatchNext::AwaitQuota,
    ensures
        next_action(
            state_after(state, WatchNext::AwaitQuota),
            total,
            true,
            run_on_start,
            false,
        ) == WatchNext::Run,
{
}

/// After a run the command does not run again while the quota stays.
pub proof fn command_runs_once_per_edge(
    state: WatchState,
    total: usize,
    run_on_start: bool,
    script_missing: bool,
    script_missing_next: bool,
)
    requires
        next_action(state, total, true, run_on_start, script_missing) == WatchNext::Run,
    ensures
        next_action(
            state_after(state, WatchNext::Run),
            total,
            true,
            run_on_start,
            script_missing_next,
        ) != WatchNext::Run,
{
}

/// A command that was due when its script was missing runs in the next round with quota in
/// which the script is there, and the wait counts as no run.
pub proof fn missing_script_postpones_the_run(
    state: WatchState,
    total: usize,
    run_on_start: bool,
)
    requires
        next_action(state, total, true, run_on_start, true) == WatchNext::AwaitScript,
    ensures
        state_after(state, WatchNext::AwaitScript).done == state.done,
        next_action(
            state_after(state, WatchNext::AwaitScript),
            total,
            true,
            run_on_start,
            false,
        ) == WatchNext::Run,
{
}

/// How many runs there are to be, where that is bounded.
pub open spec fn of_total(total: usize, before: Seq<char>, after: Seq<char>) -> Seq<char> {
    if total != usize::MAX {
        before + decimal(total as int) + after
    } else {
        Seq::empty()
    }
}

/// The status line of the loop.
pub open spec fn status_text(
    state: WatchState,
    total: usize,
    last: Option<(Seq<char>, int)>,
    interval: u64,
    log: Seq<char>,
) -> Seq<char> {
    "  runs: "@ + decimal(state.done as int) + of_total(total, "/"@, Seq::empty()) + " | "@ + (
    match last {
        Some((at, code)) => "last: "@ + at + " · exit "@ + signed_decimal(code),
        None => "last: —"@,
    }) + " | poll every "@ + decimal(interval as int) + "s | log: "@ + log + " (Ctrl-C to stop)"@
}

/// The status line of the loop. `last` is the time and the exit code of the last run.
pub fn status_line(
    state: &WatchState,
    total: usize,
    last: &Option<(String, i32)>,
    interval: u64,
    log: &str,
) -> (r: String)
    ensures
        r@ == status_text(
            *state,
            total,
            match *last {
                Some((at, code)) => Some((at@, code as int)),
                None => None,
            },
            interval,
            log@,
        ),
{
    let mut r: String = concat2("  runs: ", decimal_text(state.done as u64).as_str());
    if total != usize::MAX {
        r.append("/");
        r.append(decimal_text(total as u64).as_str());
    }
    let ghost shown = of_total(total, "/"@, Seq::empty());
    assert(r@ == "  runs: "@ + decimal(state.done as int) + shown);
    r.append(" | ");
    let tail: String = match last {
        Some((at, code)) => {
            let head: String = concat3("last: ", at.as_str(), " · exit ");
            concat2(head.as_str(), signed_text(*code as i64).as_str())
        },
        None => "last: —".to_string(),
    };
    r.append(tail.as_str());
    r.append(" | poll every ");
    r.append(decimal_text(interval).as_str());
    r.append("s | log: ");
    r.append(log);
    r.append(" (Ctrl-C to stop)");
    r
}

/// The line that announces a run.
pub open spec fn run_text(state: WatchState, total: usize, command: Seq<char>) -> Seq<char> {
    "  ▶ run #"@ + decimal(state.done + 1) + of_total(total, " (of "@, ")"@) + ": "@ + command
}

/// The line that announces a run.
pub fn run_line(state: &WatchState, total: usize, command: &str) -> (r: String)
    requires
        state.done < usize::MAX,
    ensures
        r@ == run_text(*state, total, command@),
{
    let mut r: String = concat2("  ▶ run #", decimal_text(state.done as u64 + 1).as_str());
    if total != usize::MAX {
        r.append(" (of ");
        r.append(decimal_text(total as u64).as_str());
        r.append(")");
    }
    let ghost shown = of_total(total, " (of "@, ")"@);
    assert(r@ == "  ▶ run #"@ + decimal(state.done + 1) + shown);
    r.append(": ");
    r.append(command);
    r
}

/// What a round does, by what it finds: it stops once all runs are complete, waits without
/// quota, and with quota runs the command only where the round before had none, or where it is
/// the first and the command is to run at the start.
pub proof fn rounds_decide_by_what_they_find(
    state: WatchState,
    total: usize,
    has_quota: bool,
    run_on_start: bool,
    script_missing: bool,
)
    ensures
        ({
            let next = next_action(state, total, has_quota, run_on_start, script_missing);
            let open = state.done < total;
            let due = state.prev_available == Some(false) || (state.prev_available is None
                && run_on_start);
            &&& next == WatchNext::Finish <==> !open
            &&& next == WatchNext::AwaitQuota <==> open && !has_quota
            &&& next == WatchNext::AwaitEdge <==> open && has_quota && !due
            &&& next == WatchNext::AwaitScript <==> open && has_quota && due && script_missing
            &&& next == WatchNext::Run <==> open && has_quota && due && !script_missing
        }),
{
}

/// A round leaves behind whether it found quota, unless the loop is over or waits for the
/// script, which leaves everything as it was. Only a run counts as one.
pub proof fn rounds_remember_what_they_found(
    state: WatchState,
    total: usize,
    has_quota: bool,
    run_on_start: bool,
    script_missing: bool,
)
    ensures
        ({
            let next = next_action(state, total, has_quota, run_on_start, script_missing);
            let after = state_after(state, next);
            &&& next == WatchNext::Finish || next == WatchNext::AwaitScript ==> after == state
            &&& next != WatchNext::Finish && next != WatchNext::AwaitScript
                ==> after.prev_available == Some(has_quota)
            &&& next == WatchNext::Run ==> after.done == state.done + 1
            &&& next != WatchNext::Run ==> after.done == state.done
        }),
{
}

/// Whether the states are those of a loop that finds this in its rounds.
pub open spec fn plays(
    states: Seq<WatchState>,
    quota: Seq<bool>,
    missing: Seq<bool>,
    total: usize,
    run_on_start: bool,
) -> bool {
    &&& states.len() == quota.len() + 1
    &&& missing.len() == quota.len()
    &&& forall|k: int|
        0 <= k < quota.len() ==> #[trigger] states[k + 1] == state_after(
            states[k],
            next_action(states[k], total, quota[k], run_on_start, missing[k]),
        )
}

/// Between two rounds that run the command there is a round without quota.
pub proof fn quota_goes_away_between_two_runs(
    states: Seq<WatchState>,
    quota: Seq<bool>,
    missing: Seq<bool>,
    total: usize,
    run_on_start: bool,
    a: int,
    b: int,
)
    requires
        plays(states, quota, missing, total, run_on_start),
        0 <= a < b < quota.len(),
        next_action(states[a], total, quota[a], run_on_start, missing[a]) == WatchNext::Run,
        next_action(states[b], total, quota[b], run_on_start, missing[b]) == WatchNext::Run,
    ensures
        exists|c: int| a < c < b && !(#[trigger] quota[c]),
{
    if forall|c: int| a < c < b ==> #[trigger] quota[c] {
        assert(states[a + 1].prev_available == Some(true));
        lemma_quota_stays(states, quota, missing, total, run_on_start, a + 1, b);
    }
}

/// While the quota stays, the loop remembers it and does not run the command.
proof fn lemma_quota_stays(
    states: Seq<WatchState>,
    quota: Seq<bool>,
    missing: Seq<bool>,
    total: usize,
    run_on_start: bool,
    from: int,
    to: int,
)
    requires
        plays(states, quota, missing, total, run_on_start),
        0 <= from <= to < states.len(),
        states[from].prev_available == Some(true),
        forall|c: int| from <= c < to ==> #[trigger] quota[c],
    ensures
        states[to].prev_available == Some(true),
        forall|c: int| from <= c < to ==> #[trigger] states[c].prev_available == Some(true),
    decreases to - from,
{
    if from < to {
        lemma_quota_stays(states, quota, missing, total, run_on_start, from, to - 1);
        assert(states[to - 1].prev_available == Some(true));
        assert(states[(to - 1) + 1] == state_after(
            states[to - 1],
            next_action(states[to - 1], total, quota[to - 1], run_on_start, missing[to - 1]),
        ));
    }
}

/// A loop that is not to run at the start does not run before a round without quota.
pub proof fn lazy_loop_waits_for_a_pause(
    states: Seq<WatchState>,
    quota: Seq<bool>,
    missing: Seq<bool>,
    total: usize,
    b: int,
)
    requires
        plays(states, quota, missing, total, false),
        states[0].prev_available is None,
        0 <= b < quota.len(),
        forall|c: int| 0 <= c <= b ==> #[trigger] quota[c],
    ensures
        next_action(states[b], total, quota[b], false, missing[b]) != WatchNext::Run,
{
    if b > 0 {
        assert(states[0int + 1] == state_after(
            states[0],
            next_action(states[0], total, quota[0], false, missing[0]),
        ));
        assert(quota[0]);
        if states[0].done >= total {
            lemma_over(states, quota, missing, total, false, b);
        } else {
            assert(states[1].prev_available == Some(true));
            lemma_quota_stays(states, quota, missing, total, false, 1, b);
        }
    }
}

/// A loop that is over stays over.
proof fn lemma_over(
    states: Seq<WatchState>,
    quota: Seq<bool>,
    missing: Seq<bool>,
    total: usize,
    run_on_start: bool,
    n: int,
)
    requires
        plays(states, quota, missing, total, run_on_start),
        states[0].done >= total,
        0 <= n < states.len(),
    ensures
        states[n] == states[0],
    decreases n,
{
    if n > 0 {
        lemma_over(states, quota, missing, total, run_on_start, n - 1);
        assert(states[(n - 1) + 1] == state_after(
            states[n - 1],
            next_action(states[n - 1], total, quota[n - 1], run_on_start, missing[n - 1]),
        ));
    }
}

/// The runs are counted, and there are never more of them than asked for.
pub proof fn runs_are_counted(
    states: Seq<WatchState>,
    quota: Seq<bool>,
    missing: Seq<bool>,
    total: usize,
    run_on_start: bool,
    n: int,
)
    requires
        plays(states, quota, missing, total, run_on_start),
        states[0].done <= total,
        0 <= n < quota.len(),
    ensures
        states[n + 1].done <= total,
        states[n + 1].done == states[n].done + if next_action(
            states[n],
            total,
            quota[n],
            run_on_start,
            missing[n],
        ) == WatchNext::Run {
            1int
        } else {
            0int
        },
    decreases n,
{
    if n > 0 {
        runs_are_counted(states, quota, missing, total, run_on_start, n - 1);
    }
    assert(states[n].done <= total);
}

/// There is quota as soon as one account has some of its five-hour window left, and else not,
/// whatever the accounts have left of the seven-day window.
pub proof fn one_account_with_quota_is_enough(rows: Seq<Row>, i: int)
    requires
        0 <= i < rows.len(),
    ensures
        short_left(rows[i]) > 0 ==> any_quota(rows),
        (forall|k: int| 0 <= k < rows.len() ==> short_left(#[trigger] rows[k]) <= 0) ==> !any_quota(
            rows,
        ),
{
}

/// A row that takes part in routing can be switched to where it has something left of a window.
pub proof fn rows_that_can_be_switched_to(rows: Seq<Row>, i: int)
    requires
        0 <= i < rows.len(),
        rows[i].account.routing_enabled != Some(false),
        short_left(rows[i]) > 0 || crate::recommend::long_left(rows[i]) > 0,
    ensures
        any_target(rows),
{
    crate::recommend::something_left_is_recommended(rows, i);
    assert(watch_standing(rows[i]) is Some);
}

/// Where no row can be switched to there is nothing to switch to, and one row is enough.
pub proof fn rows_are_looked_at_in_turn(rows: Seq<Row>, row: Row)
    ensures
        !any_target(Seq::empty()),
        any_target(rows.push(row)) <==> any_target(rows) || watch_standing(row) is Some,
        !any_quota(Seq::empty()),
        any_quota(rows.push(row)) <==> any_quota(rows) || short_left(row) > 0,
{
    let w = rows.push(row);
    assert(w[rows.len() as int] == row);
    assert(forall|i: int| 0 <= i < rows.len() ==> w[i] == rows[i]);
    if any_target(rows) {
        let i = choose|i: int| 0 <= i < rows.len() && watch_standing(#[trigger] rows[i]) is Some;
        assert(watch_standing(w[i]) is Some);
    }
    if any_target(w) && watch_standing(row) is None {
        let i = choose|i: int| 0 <= i < w.len() && watch_standing(#[trigger] w[i]) is Some;
        assert(watch_standing(rows[i]) is Some);
    }
    if any_quota(rows) {
        let i = choose|i: int| 0 <= i < rows.len() && short_left(#[trigger] rows[i]) > 0;
        assert(short_left(w[i]) > 0);
    }
    if any_quota(w) && short_left(row) <= 0 {
        let i = choose|i: int| 0 <= i < w.len() && short_left(#[trigger] w[i]) > 0;
        assert(short_left(rows[i]) > 0);
    }
}

proof fn lemma_words_of_white(s: Seq<char>)
    requires
        s.len() > 0,
        is_white(s[0]),
    ensures
        words(s) == words(s.drop_first()),
{
}

/// White space parts words, wherever it stands: the words of a text are those before it and
/// those after it.
pub proof fn white_space_parts_words(a: Seq<char>, w: char, b: Seq<char>)
    requires
        is_white(w),
    ensures
        words(a + seq![w] + b) == words(a) + words(b),
    decreases a.len(),
{
    let s = a + seq![w] + b;
    if a.len() == 0 {
        assert(s[0] == w);
        assert(s.drop_first() == b);
        lemma_words_of_white(s);
        assert(words(a) + words(b) == words(b));
    } else if is_white(a[0]) {
        assert(s[0] == a[0]);
        assert(s.drop_first() == a.drop_first() + seq![w] + b);
        lemma_words_of_white(s);
        lemma_words_of_white(a);
        white_space_parts_words(a.drop_first(), w, b);
    } else {
        assert(s[0] == a[0]);
        lemma_word_length(a);
        lemma_word_length(s);
        let n = word_length(a);
        lemma_same_word(a, s, n);
        assert(s.take(n) == a.take(n));
        assert(s.skip(n) == a.skip(n) + seq![w] + b);
        white_space_parts_words(a.skip(n), w, b);
        assert(trim_start(s) == s);
        assert(trim_start(a) == a);
        assert(words(s) == seq![s.take(n)] + words(s.skip(n)));
        assert(words(a) == seq![a.take(n)] + words(a.skip(n)));
        assert(words(s) == words(a) + words(b));
    }
}

/// The first word of two texts that agree up to its end, and have none of it after that.
proof fn lemma_same_word(a: Seq<char>, s: Seq<char>, n: int)
    requires
        0 <= n <= a.len(),
        n < s.len(),
        forall|i: int| 0 <= i < n ==> s[i] == a[i] && !is_white(#[trigger] a[i]),
        is_white(s[n]),
    ensures
        word_length(s) == n,
    decreases n,
{
    if n > 0 {
        assert(!is_white(a[0]));
        assert forall|i: int| 0 <= i < n - 1 implies s.drop_first()[i] == a.drop_first()[i]
            && !is_white(#[trigger] a.drop_first()[i]) by {
            assert(!is_white(a[i + 1]));
        }
        lemma_same_word(a.drop_first(), s.drop_first(), n - 1);
    }
}

/// A text without white space is one word, and an empty one has none.
pub proof fn text_without_white_space_is_a_word(s: Seq<char>)
    requires
        forall|i: int| 0 <= i < s.len() ==> !is_white(#[trigger] s[i]),
    ensures
        s.len() > 0 ==> words(s) == seq![s],
        s.len() == 0 ==> words(s).len() == 0,
{
    if s.len() > 0 {
        lemma_word_length(s);
        assert(trim_start(s) == s);
        assert(s.take(s.len() as int) == s);
        assert(s.skip(s.len() as int).len() == 0);
        assert(words(s.skip(s.len() as int)).len() == 0);
        assert(words(s) == seq![s]);
    }
}

/// Whether the word at `m` of a command is one that a script can be: no option, redirection or
/// pipe, and either with a slash, or the name of a script with nothing but options that lead to
/// one before it.
pub open spec fn can_be_script(w: Seq<Seq<char>>, m: int) -> bool {
    &&& !(w[m].len() > 0 && (w[m][0] == '-' || w[m][0] == '>' || w[m][0] == '|'))
    &&& w[m].contains('/') || (script_name(w[m]) && forall|x: int|
        1 <= x < m ==> leads_to_script(w[0], #[trigger] w[x]))
}

/// After an interpreter the script is the first word that can be one.
pub proof fn script_is_the_first_word_that_names_one(command: Seq<char>, k: int)
    requires
        words(command).len() > 0,
        interpreter(words(command)[0]),
        1 <= k <= words(command).len(),
        forall|m: int| 1 <= m < k ==> !#[trigger] can_be_script(words(command), m),
        k < words(command).len() ==> can_be_script(words(command), k),
    ensures
        script(command) == if k < words(command).len() {
            Some(words(command)[k])
        } else {
            None
        },
{
    let w = words(command);
    assert(w.drop_first() == w.skip(1));
    assert forall|m: int| 1 <= m < k implies !names_script(#[trigger] w[m], forall|x: int|
        1 <= x < m ==> leads_to_script(w[0], #[trigger] w[x])) by {
        assert(!can_be_script(w, m));
    }
    lemma_script_search(w, k, 1, true);
}

/// The search for the script, from the word at `from` on, where no word before `k` names one.
proof fn lemma_script_search(w: Seq<Seq<char>>, k: int, from: int, first: bool)
    requires
        1 <= from <= k <= w.len(),
        first <==> forall|x: int| 1 <= x < from ==> leads_to_script(w[0], #[trigger] w[x]),
        forall|m: int| from <= m < k ==> !names_script(#[trigger] w[m], forall|x: int|
            1 <= x < m ==> leads_to_script(w[0], #[trigger] w[x])),
        k < w.len() ==> names_script(w[k], forall|x: int|
            1 <= x < k ==> leads_to_script(w[0], #[trigger] w[x])),
    ensures
        script_among(w[0], w.skip(from), first) == if k < w.len() {
            Some(w[k])
        } else {
            None
        },
    decreases k - from,
{
    let rest = w.skip(from);
    if from < w.len() {
        assert(rest[0] == w[from]);
        assert(rest.drop_first() == w.skip(from + 1));
    }
    if from < k {
        assert(!names_script(w[from], first));
        let next = first && leads_to_script(w[0], w[from]);
        assert(next <==> forall|x: int| 1 <= x < from + 1 ==> leads_to_script(
            w[0],
            #[trigger] w[x],
        )) by {
            if next {
                assert forall|x: int| 1 <= x < from + 1 implies leads_to_script(
                    w[0],
                    #[trigger] w[x],
                ) by {}
            }
            if forall|x: int| 1 <= x < from + 1 ==> leads_to_script(w[0], #[trigger] w[x]) {
                assert(leads_to_script(w[0], w[from]));
            }
        }
        lemma_script_search(w, k, from + 1, next);
    }
}

/// A command that does not begin with an interpreter runs a script only where it is itself the
/// path of one: from the root or the working directory, and with a dot in it.
pub proof fn command_that_is_a_path_is_a_script(command: Seq<char>)
    requires
        words(command).len() > 0,
        !interpreter(words(command)[0]),
    ensures
        ({
            let head = words(command)[0];
            let path = head.len() > 0 && (head[0] == '/' || (head.len() > 1 && head[0] == '.'
                && head[1] == '/'));
            &&& path && head.contains('.') ==> script(command) == Some(head)
            &&& !(path && head.contains('.')) ==> script(command) is None
        }),
{
    let head = words(command)[0];
    reveal_strlit("./");
    reveal_strlit("/");
    if "/"@.is_prefix_of(head) {
        assert("/"@[0] == head.subrange(0, 1)[0]);
    }
    if "./"@.is_prefix_of(head) {
        assert("./"@[0] == head.subrange(0, 2)[0]);
        assert("./"@[1] == head.subrange(0, 2)[1]);
    }
    if head.len() > 0 && head[0] == '/' {
        assert("/"@ =~= head.subrange(0, 1));
    }
    if head.len() > 1 && head[0] == '.' && head[1] == '/' {
        assert("./"@ =~= head.subrange(0, 2));
    }
}

/// After an option that carries the program itself no mere name is taken for a script: `c` for a
/// shell or Python, `m` for Python, `e` for Node or Perl, alone or among other letters. Long
/// options and a lone hyphen lead to no script either.
pub proof fn options_that_carry_a_program(head: Seq<char>, option: Seq<char>, i: int)
    requires
        1 <= i < option.len(),
    ensures
        (head == "bash"@ || head == "sh"@ || head == "zsh"@) && option[i] == 'c'
            ==> !leads_to_script(head, option),
        (head == "python"@ || head == "python3"@) && (option[i] == 'c' || option[i] == 'm')
            ==> !leads_to_script(head, option),
        (head == "node"@ || head == "perl"@) && option[i] == 'e' ==> !leads_to_script(
            head,
            option,
        ),
        option[1] == '-' ==> !leads_to_script(head, option),
        option[0] != '-' ==> !leads_to_script(head, option),
{
    reveal_strlit("bash");
    reveal_strlit("sh");
    reveal_strlit("zsh");
    reveal_strlit("python");
    reveal_strlit("python3");
    reveal_strlit("node");
    reveal_strlit("perl");
    assert("bash"@[0] == 'b' && "sh"@[0] == 's' && "zsh"@[0] == 'z');
    assert("python"@[0] == 'p' && "python"@[1] == 'y' && "python3"@[0] == 'p' && "python3"@[1]
        == 'y');
    assert("node"@[0] == 'n' && "perl"@[0] == 'p' && "perl"@[1] == 'e');
    assert(telling_letter(head, option[i]) ==> !leads_to_script(head, option));
}

/// Options of single letters that carry no program and take no argument lead to a script, as
/// `-e` does for a shell.
pub proof fn plain_options_lead_to_a_script(head: Seq<char>, option: Seq<char>)
    requires
        option.len() >= 2,
        option[0] == '-',
        option[1] != '-',
        forall|i: int|
            1 <= i < option.len() ==> {
                let c = #[trigger] option[i];
                c != 'c' && c != 's' && c != 'o' && c != 'O'
            },
        head == "bash"@ || head == "sh"@ || head == "zsh"@,
    ensures
        leads_to_script(head, option),
{
    reveal_strlit("bash");
    reveal_strlit("sh");
    reveal_strlit("zsh");
    reveal_strlit("python");
    reveal_strlit("python3");
    reveal_strlit("node");
    reveal_strlit("perl");
    assert("bash"@[0] == 'b' && "sh"@[0] == 's' && "zsh"@[0] == 'z');
    assert("python"@[0] == 'p' && "python3"@[0] == 'p' && "node"@[0] == 'n' && "perl"@[0] == 'p');
}

/// A mere name is taken for a script only where it has an ending, after which nothing comes, and
/// no character that means more than itself to a shell.
pub proof fn names_of_scripts_are_plain(word: Seq<char>, i: int)
    requires
        script_name(word),
        0 <= i < word.len(),
    ensures
        word.contains('.'),
        word[i] != '*' && word[i] != '?' && word[i] != '<' && word[i] != '>' && word[i] != '|',
        word[i] != '&' && word[i] != ';' && word[i] != '$' && word[i] != '"' && word[i] != '\'',
        word[i] != '(' && word[i] != ')' && word[i] != '{' && word[i] != '}' && word[i] != '~',
{
    reveal_strlit(".sh");
    reveal_strlit(".bash");
    reveal_strlit(".zsh");
    reveal_strlit(".py");
    reveal_strlit(".js");
    reveal_strlit(".mjs");
    reveal_strlit(".cjs");
    reveal_strlit(".pl");
    assert(name_char(word[i]));
    let n = word.len() as int;
    assert(".sh"@.is_suffix_of(word) ==> word[n - 3] == word.subrange(n - 3, n)[0]);
    assert(".bash"@.is_suffix_of(word) ==> word[n - 5] == word.subrange(n - 5, n)[0]);
    assert(".zsh"@.is_suffix_of(word) ==> word[n - 4] == word.subrange(n - 4, n)[0]);
    assert(".py"@.is_suffix_of(word) ==> word[n - 3] == word.subrange(n - 3, n)[0]);
    assert(".js"@.is_suffix_of(word) ==> word[n - 3] == word.subrange(n - 3, n)[0]);
    assert(".mjs"@.is_suffix_of(word) ==> word[n - 4] == word.subrange(n - 4, n)[0]);
    assert(".cjs"@.is_suffix_of(word) ==> word[n - 4] == word.subrange(n - 4, n)[0]);
    assert(".pl"@.is_suffix_of(word) ==> word[n - 3] == word.subrange(n - 3, n)[0]);
}

/// A blank stands between the arguments of a command, wherever they are parted.
pub proof fn arguments_are_joined_by_blanks(a: Seq<Seq<char>>, b: Seq<Seq<char>>)
    requires
        a.len() > 0,
        b.len() > 0,
    ensures
        joined(a + b) == joined(a) + seq![' '] + joined(b),
        joined(seq![a[0]]) == a[0],
    decreases b.len(),
{
    reveal_strlit(" ");
    assert(" "@ =~= seq![' ']);
    assert(seq![a[0]][0] == a[0]);
    if b.len() == 1 {
        assert((a + b).drop_last() == a);
        assert((a + b).last() == b[0]);
    } else {
        assert((a + b).drop_last() == a + b.drop_last());
        assert((a + b).last() == b.last());
        arguments_are_joined_by_blanks(a, b.drop_last());
        assert(joined(a + b) == joined(a) + seq![' '] + joined(b));
    }
}

/// The log is kept to a hundred kilobytes.
pub proof fn log_is_kept_to_a_hundred_kilobytes()
    ensures
        WATCH_LOG_MAX_BYTES == 100 * 1024,
{
}

/// There is at most one first active account, and an active one with no other before it is it.
pub proof fn first_active_account_is_single(rows: Seq<Row>, i: int, j: int)
    requires
        0 <= i < rows.len(),
        0 <= j < rows.len(),
    ensures
        first_active(rows, i) && first_active(rows, j) ==> i == j,
        first_active(rows, i) && j < i ==> !rows[j].account.active,
        rows[i].account.active && (forall|k: int|
            0 <= k < i ==> !(#[trigger] rows[k]).account.active) ==> first_active(rows, i),
        first_active(rows, i) ==> rows[i].account.active,
{
}

/// The number of all runs is told where there is one, and the next run is numbered one above
/// those that are done.
pub proof fn runs_are_numbered(state: WatchState, total: usize, command: Seq<char>)
    ensures
        total < usize::MAX ==> run_text(state, total, command) == "  ▶ run #"@ + decimal(
            1 + state.done,
        ) + (" (of "@ + decimal(total as int) + ")"@) + ": "@ + command,
        run_text(state, usize::MAX, command) == "  ▶ run #"@ + decimal(1 + state.done) + ": "@
            + command,
{
    assert("  ▶ run #"@ + decimal(state.done + 1) + Seq::<char>::empty() =~= "  ▶ run #"@
        + decimal(state.done + 1));
}

/// The line of a loop tells of the runs that are done, the last one with its exit code, the
/// seconds between two rounds and the log.
pub proof fn status_tells_of_the_loop(
    state: WatchState,
    total: usize,
    at: Seq<char>,
    code: int,
    interval: u64,
    log: Seq<char>,
)
    ensures
        ({
            let tail = " | poll every "@ + decimal(interval as int) + "s | log: "@ + log
                + " (Ctrl-C to stop)"@;
            let done = "  runs: "@ + decimal(state.done as int);
            let last = " | "@ + ("last: "@ + at + " · exit "@ + signed_decimal(code));
            &&& status_text(state, usize::MAX, Some((at, code)), interval, log) == done + last
                + tail
            &&& status_text(state, usize::MAX, None, interval, log) == done + (" | "@
                + "last: —"@) + tail
            &&& total < usize::MAX ==> status_text(state, total, Some((at, code)), interval, log)
                == done + ("/"@ + decimal(total as int)) + last + tail
        }),
{
    let tail = " | poll every "@ + decimal(interval as int) + "s | log: "@ + log
        + " (Ctrl-C to stop)"@;
    let done = "  runs: "@ + decimal(state.done as int);
    let last = " | "@ + ("last: "@ + at + " · exit "@ + signed_decimal(code));
    assert(status_text(state, usize::MAX, Some((at, code)), interval, log) =~= done + last + tail);
    assert(status_text(state, usize::MAX, None, interval, log) =~= done + (" | "@ + "last: —"@)
        + tail);
    if total < usize::MAX {
        assert(status_text(state, total, Some((at, code)), interval, log) =~= done + ("/"@
            + decimal(total as int)) + last + tail);
    }
}

} // verus!
