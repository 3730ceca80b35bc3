//! The command that a completed knock releases: the rule's template with
//! the client's address put in, and its split into program and arguments.
//!
//! The address is inserted verbatim. Nothing is quoted or escaped, so a
//! template is only as safe as the address strings that reach it.

use crate::config::{Rule, RuleView};
use vstd::prelude::*;
use vstd::string::*;

verus! {

/// The marker that stands for the client's address in a command template:
/// the four characters `%IP%`.
pub open spec fn placeholder() -> Seq<char> {
    seq!['%', 'I', 'P', '%']
}

/// `s` begins with `prefix`.
pub open spec fn starts_with(s: Seq<char>, prefix: Seq<char>) -> bool {
    prefix.len() <= s.len() && s.subrange(0, prefix.len() as int) == prefix
}

/// `template` with every occurrence of `marker` replaced by `value`,
/// scanning from the left; occurrences do not overlap, and `value` itself is
/// not scanned again. An empty marker replaces nothing.
pub open spec fn substitute(template: Seq<char>, marker: Seq<char>, value: Seq<char>) -> Seq<char>
    decreases template.len(),
{
    if marker.len() == 0 || template.len() == 0 {
        template
    } else if starts_with(template, marker) {
        value + substitute(template.skip(marker.len() as int), marker, value)
    } else {
        seq![template[0]] + substitute(template.skip(1), marker, value)
    }
}

/// The command line for `client`: the template with the address in place of
/// each placeholder.
pub open spec fn command_for(template: Seq<char>, client: Seq<char>) -> Seq<char> {
    substitute(template, placeholder(), client)
}

fn placeholder_at(template: &str, i: usize, n: usize) -> (found: bool)
    requires
        n == template@.len(),
        i < n,
    ensures
        found == starts_with(template@.skip(i as int), placeholder()),
{
    let ghost rest = template@.skip(i as int);
    if n - i < 4 {
        return false;
    }
    let found = template.get_char(i) == '%' && template.get_char(i + 1) == 'I' && template.get_char(
        i + 2,
    ) == 'P' && template.get_char(i + 3) == '%';
    proof {
        let head = rest.subrange(0, 4);
        assert(head[0] == template@[i as int]);
        assert(head[1] == template@[i + 1]);
        assert(head[2] == template@[i + 2]);
        assert(head[3] == template@[i + 3]);
        if found {
            assert(head =~= placeholder());
        }
    }
    found
}

/// Puts `client_address` in place of each `%IP%` in `template`.
///
/// Takes time quadratic in the template's length, which is a line of
/// shell at most.
pub fn format_command(template: &str, client_address: &str) -> (command: String)
    ensures
        command@ == command_for(template@, client_address@),
{
    let n: usize = template.unicode_len();
    let mut command = String::new();
    let mut i: usize = 0;
    proof {
        assert(template@.skip(0) =~= template@);
        assert(command@ + command_for(template@, client_address@) =~= command_for(
            template@,
            client_address@,
        ));
    }
    while i < n
        invariant
            n == template@.len(),
            i <= n,
            command@ + command_for(template@.skip(i as int), client_address@) == command_for(
                template@,
                client_address@,
            ),
        decreases n - i,
    {
        let ghost rest = template@.skip(i as int);
        let ghost done = command@;
        if placeholder_at(template, i, n) {
            command.append(client_address);
            proof {
                let tail = command_for(rest.skip(4), client_address@);
                assert(rest.skip(4) =~= template@.skip(i + 4));
                assert(done + (client_address@ + tail) =~= (done + client_address@) + tail);
            }
            i += 4;
        } else {
            command.append(template.substring_char(i, i + 1));
            proof {
                let tail = command_for(rest.skip(1), client_address@);
                assert(rest.skip(1) =~= template@.skip(i + 1));
                assert(template@.subrange(i as int, i + 1) =~= seq![rest[0]]);
                assert(done + (seq![rest[0]] + tail) =~= (done + seq![rest[0]]) + tail);
            }
            i += 1;
        }
    }
    proof {
        assert(command@ + Seq::<char>::empty() =~= command@);
    }
    command
}

/// A command that is due: which rule fired, for which client, and the
/// command line to run.
#[derive(Debug)]
pub struct Dispatch {
    pub rule: String,
    pub client_address: String,
    pub command: String,
}

/// Mathematical value of a [`Dispatch`].
pub struct DispatchView {
    pub rule: Seq<char>,
    pub client_address: Seq<char>,
    pub command: Seq<char>,
}

impl View for Dispatch {
    type V = DispatchView;

    open spec fn view(&self) -> DispatchView {
        DispatchView {
            rule: self.rule@,
            client_address: self.client_address@,
            command: self.command@,
        }
    }
}

/// The values of a list of dispatches, position by position.
pub open spec fn dispatch_views(pending: Seq<Dispatch>) -> Seq<DispatchView> {
    Seq::new(pending.len(), |i: int| pending[i]@)
}

/// What is due when `rule` fires for `client`.
pub open spec fn dispatch_for(rule: RuleView, client: Seq<char>) -> DispatchView {
    DispatchView {
        rule: rule.name,
        client_address: client,
        command: command_for(rule.command, client),
    }
}

/// Prepares the command that `rule` releases for `client_address`.
pub fn dispatch(rule: &Rule, client_address: &str) -> (due: Dispatch)
    ensures
        due@ == dispatch_for(rule@, client_address@),
{
    Dispatch {
        rule: rule.name.clone(),
        client_address: client_address.to_owned(),
        command: format_command(rule.command.as_str(), client_address),
    }
}

/// White space as Unicode defines it (the property `White_Space`).
pub open spec fn is_space(c: char) -> bool {
    let code = c as u32;
    ||| 0x09 <= code <= 0x0D
    ||| code == 0x20
    ||| code == 0x85
    ||| code == 0xA0
    ||| code == 0x1680
    ||| 0x2000 <= code <= 0x200A
    ||| code == 0x2028
    ||| code == 0x2029
    ||| code == 0x202F
    ||| code == 0x205F
    ||| code == 0x3000
}

/// Decides whether `c` is white space.
pub fn is_whitespace(c: char) -> (space: bool)
    ensures
        space == is_space(c),
{
    let code: u32 = c as u32;
    (0x09 <= code && code <= 0x0D) || code == 0x20 || code == 0x85 || code == 0xA0 || code
        == 0x1680 || (0x2000 <= code && code <= 0x200A) || code == 0x2028 || code == 0x2029 || code
        == 0x202F || code == 0x205F || code == 0x3000
}

/// Where the run of non-space characters that starts at `i` ends: the first
/// index at or after `i` that holds white space, or the end of `s`.
pub open spec fn word_end(s: Seq<char>, i: int) -> int
    decreases s.len() - i,
{
    if i < 0 || i >= s.len() || is_space(s[i]) {
        i
    } else {
        word_end(s, i + 1)
    }
}

/// A word that starts inside `s` ends inside `s`, and not before it starts.
pub proof fn lemma_word_end_bounds(s: Seq<char>, i: int)
    requires
        0 <= i <= s.len(),
    ensures
        i <= word_end(s, i) <= s.len(),
        i < s.len() && !is_space(s[i]) ==> i < word_end(s, i),
        forall|k: int| i <= k < word_end(s, i) ==> !is_space(#[trigger] s[k]),
        word_end(s, i) < s.len() ==> is_space(s[word_end(s, i)]),
    decreases s.len() - i,
{
    if i < s.len() && !is_space(s[i]) {
        lemma_word_end_bounds(s, i + 1);
    }
}

/// The words of `s` from index `i` on: the maximal runs of characters that
/// are not white space, in order.
pub open spec fn words_from(s: Seq<char>, i: int) -> Seq<Seq<char>>
    decreases s.len() - i,
{
    if i < 0 || i >= s.len() {
        Seq::empty()
    } else if is_space(s[i]) {
        words_from(s, i + 1)
    } else {
        proof {
            lemma_word_end_bounds(s, i);
        }
        seq![s.subrange(i, word_end(s, i))] + words_from(s, word_end(s, i))
    }
}

/// The words of `s`: what is left when `s` is cut at white space. The first
/// is the program to run, the others are its arguments.
pub open spec fn words_of(s: Seq<char>) -> Seq<Seq<char>> {
    words_from(s, 0)
}

/// The values of a list of strings, position by position.
pub open spec fn string_views(items: Seq<String>) -> Seq<Seq<char>> {
    Seq::new(items.len(), |i: int| items[i]@)
}

/// Cuts a command line at white space into its words.
///
/// Takes time quadratic in the line's length.
pub fn split_command(command: &str) -> (words: Vec<String>)
    ensures
        string_views(words@) == words_of(command@),
{
    let n: usize = command.unicode_len();
    let mut words: Vec<String> = Vec::new();
    let mut i: usize = 0;
    proof {
        assert(string_views(words@) + words_from(command@, 0) =~= words_of(command@));
    }
    while i < n
        invariant
            n == command@.len(),
            i <= n,
            string_views(words@) + words_from(command@, i as int) == words_of(command@),
        decreases n - i,
    {
        if is_whitespace(command.get_char(i)) {
            i += 1;
        } else {
            let start: usize = i;
            i += 1;
            while i < n && !is_whitespace(command.get_char(i))
                invariant
                    n == command@.len(),
                    start < i <= n,
                    word_end(command@, start as int) == word_end(command@, i as int),
                decreases n - i,
            {
                i += 1;
            }
            let ghost done = string_views(words@);
            let word = command.substring_char(start, i).to_owned();
            words.push(word);
            proof {
                assert(word_end(command@, start as int) == i);
                let tail = words_from(command@, i as int);
                assert(string_views(words@) =~= done + seq![word@]);
                assert(done + (seq![word@] + tail) =~= (done + seq![word@]) + tail);
            }
        }
    }
    proof {
        assert(string_views(words@) + Seq::<Seq<char>>::empty() =~= string_views(words@));
    }
    words
}

/// Every word is a non-empty run of characters that are not white space.
pub proof fn lemma_words_hold_no_space(s: Seq<char>, i: int)
    requires
        0 <= i <= s.len(),
    ensures
        forall|w: int, k: int|
            0 <= w < words_from(s, i).len() && 0 <= k < words_from(s, i)[w].len() ==> !is_space(
                #[trigger] words_from(s, i)[w][k],
            ),
        forall|w: int|
            0 <= w < words_from(s, i).len() ==> (#[trigger] words_from(s, i)[w]).len() > 0,
    decreases s.len() - i,
{
    if i < s.len() {
        if is_space(s[i]) {
            lemma_words_hold_no_space(s, i + 1);
            assert(words_from(s, i) == words_from(s, i + 1));
        } else {
            lemma_word_end_bounds(s, i);
            let end = word_end(s, i);
            lemma_words_hold_no_space(s, end);
            let first = s.subrange(i, end);
            let rest = words_from(s, end);
            assert(words_from(s, i) == seq![first] + rest);
            assert forall|w: int, k: int|
                0 <= w < words_from(s, i).len() && 0 <= k < words_from(
                    s,
                    i,
                )[w].len() implies !is_space(#[trigger] words_from(s, i)[w][k]) by {
                if w == 0 {
                    assert(first[k] == s[i + k]);
                } else {
                    assert(words_from(s, i)[w] == rest[w - 1]);
                }
            }
            assert forall|w: int| 0 <= w < words_from(s, i).len() implies (#[trigger] words_from(
                s,
                i,
            )[w]).len() > 0 by {
                if w > 0 {
                    assert(words_from(s, i)[w] == rest[w - 1]);
                }
            }
        }
    }
}

/// A command line cut into the program to run and its arguments.
#[derive(Debug)]
pub struct CommandLine {
    pub program: String,
    pub arguments: Vec<String>,
}

/// Cuts a command line into program and arguments: the first word and the
/// words after it. A line without a word names no program.
pub fn parse_command(command: &str) -> (line: Option<CommandLine>)
    ensures
        match line {
            Some(l) => {
                &&& words_of(command@).len() > 0
                &&& l.program@ == words_of(command@)[0]
                &&& string_views(l.arguments@) == words_of(command@).skip(1)
            },
            None => words_of(command@).len() == 0,
        },
{
    let mut words = split_command(command);
    if words.len() == 0 {
        return None;
    }
    let ghost all = string_views(words@);
    let program = words.remove(0);
    proof {
        assert(program@ == all[0]);
        assert(string_views(words@) =~= all.skip(1));
    }
    Some(CommandLine { program, arguments: words })
}

} // verus!
