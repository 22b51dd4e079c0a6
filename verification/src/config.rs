//! Settings: where the engine is, how long the server may take, and how the
//! client is called.

use vstd::prelude::*;

use crate::decimal::parse_number;
use crate::text::{chars_of, spell, split_at_each, starts_with, trimmed, Margin};
#[allow(unused_imports)]
use crate::decimal::read_number;
#[allow(unused_imports)]
use crate::text::{
    all_in, law_separator_parts_pieces, law_trimming_takes_margins_only, split, texts, trim,
};

verus! {

/// The engine that a line of the configuration names: what stands behind
/// `engine=` or `engine =`, without white space around it and then without
/// quotation marks around it. An empty name does not count.
pub open spec fn engine_of_line(line: Seq<char>) -> Option<Seq<char>> {
    let line = trim(line, Margin::Space);
    let key = if "engine="@.is_prefix_of(line) {
        Some("engine="@)
    } else if "engine ="@.is_prefix_of(line) {
        Some("engine ="@)
    } else {
        None
    };
    match key {
        Some(key) => {
            let value = trim(trim(line.skip(key.len() as int), Margin::Space), Margin::Quotes);
            if value.len() > 0 {
                Some(value)
            } else {
                None
            }
        },
        None => None,
    }
}

/// The engine that the first one of `lines` with a name names.
pub open spec fn first_engine(lines: Seq<Seq<char>>) -> Option<Seq<char>>
    decreases lines.len(),
{
    if lines.len() == 0 {
        None
    } else {
        match first_engine(lines.drop_last()) {
            Some(engine) => Some(engine),
            None => engine_of_line(lines.last()),
        }
    }
}

/// The engine that a configuration file names.
pub open spec fn engine_of_ini(content: Seq<char>) -> Option<Seq<char>> {
    first_engine(split(content, '\n'))
}

/// Reads the name of the engine from a line of the configuration.
fn parse_engine_line(line: &str) -> (engine: Option<String>)
    ensures
        match engine {
            Some(engine) => engine_of_line(line@) == Some(engine@),
            None => engine_of_line(line@) is None,
        },
{
    proof {
        reveal_strlit("engine=");
        reveal_strlit("engine =");
    }
    let line = trimmed(line, Margin::Space);
    let chars = chars_of(line.as_str());
    let from: usize = if starts_with(line.as_str(), "engine=") {
        7
    } else if starts_with(line.as_str(), "engine =") {
        8
    } else {
        return None;
    };
    let rest = spell(&chars, from, chars.len());
    assert(rest@ == line@.skip(from as int));
    let value = trimmed(trimmed(rest.as_str(), Margin::Space).as_str(), Margin::Quotes);
    if value.as_str().is_empty() {
        None
    } else {
        Some(value)
    }
}

/// A name in the first lines decides.
proof fn lemma_first_name_decides(lines: Seq<Seq<char>>, k: int)
    requires
        0 <= k <= lines.len(),
        first_engine(lines.take(k)) is Some,
    ensures
        first_engine(lines) == first_engine(lines.take(k)),
    decreases lines.len() - k,
{
    if k == lines.len() {
        assert(lines.take(k) == lines);
    } else {
        assert(lines.take(k + 1).drop_last() == lines.take(k));
        lemma_first_name_decides(lines, k + 1);
    }
}

/// Reads the name of the engine from a configuration file.
pub fn ini_engine(content: &str) -> (engine: Option<String>)
    ensures
        match engine {
            Some(engine) => engine_of_ini(content@) == Some(engine@),
            None => engine_of_ini(content@) is None,
        },
{
    let lines = split_at_each(content, '\n');
    let ghost all = texts(lines@);
    let mut i: usize = 0;
    assert(all.take(0) == Seq::<Seq<char>>::empty());
    while i < lines.len()
        invariant
            i <= lines.len(),
            all == texts(lines@),
            all == split(content@, '\n'),
            first_engine(all.take(i as int)) is None,
        decreases lines.len() - i,
    {
        assert(all.take(i + 1).drop_last() == all.take(i as int));
        assert(all.take(i + 1).last() == lines@[i as int]@);
        let engine = parse_engine_line(lines[i].as_str());
        if engine.is_some() {
            proof {
                lemma_first_name_decides(all, i + 1);
            }
            return engine;
        }
        i = i + 1;
    }
    assert(all.take(lines.len() as int) == all);
    None
}

/// Which engine is started.
#[derive(PartialEq, Eq, Debug)]
pub enum ExeChoice {
    /// The one at this path.
    Named(String),
    /// The one in the current directory.
    InCwd,
    /// The one that comes with the client.
    AsGiven,
}

/// [`ExeChoice`] with the view of its path.
pub enum ExeChoiceView {
    Named(Seq<char>),
    InCwd,
    AsGiven,
}

impl View for ExeChoice {
    type V = ExeChoiceView;

    open spec fn view(&self) -> ExeChoiceView {
        match self {
            ExeChoice::Named(path) => ExeChoiceView::Named(path@),
            ExeChoice::InCwd => ExeChoiceView::InCwd,
            ExeChoice::AsGiven => ExeChoiceView::AsGiven,
        }
    }
}

/// Which engine is started: the one that the environment names; without one,
/// the one that the configuration file names, if there is a file; without a
/// file, the one in the current directory; and else the one that is given.
pub open spec fn exe_choice(
    env_path: Option<Seq<char>>,
    ini: Option<Seq<char>>,
    in_cwd: bool,
) -> ExeChoiceView {
    match (env_path, ini) {
        (Some(path), _) => ExeChoiceView::Named(path),
        (None, Some(content)) => match engine_of_ini(content) {
            Some(path) => ExeChoiceView::Named(path),
            None => ExeChoiceView::AsGiven,
        },
        (None, None) => if in_cwd {
            ExeChoiceView::InCwd
        } else {
            ExeChoiceView::AsGiven
        },
    }
}

/// The view of a text that may be missing.
pub open spec fn maybe_text(text: Option<String>) -> Option<Seq<char>> {
    match text {
        Some(text) => Some(text@),
        None => None,
    }
}

/// Decides which engine is started. `env_path` is what the environment names,
/// `ini` is the configuration file, and `in_cwd` tells whether the engine that
/// is given has a namesake in the current directory.
pub fn choose_exe(env_path: Option<String>, ini: Option<String>, in_cwd: bool) -> (choice:
    ExeChoice)
    ensures
        choice@ == exe_choice(maybe_text(env_path), maybe_text(ini), in_cwd),
{
    match env_path {
        Some(path) => ExeChoice::Named(path),
        None => match ini {
            Some(content) => match ini_engine(content.as_str()) {
                Some(path) => ExeChoice::Named(path),
                None => ExeChoice::AsGiven,
            },
            None => if in_cwd {
                ExeChoice::InCwd
            } else {
                ExeChoice::AsGiven
            },
        },
    }
}

/// Where the engine is when it is to be started.
#[derive(Clone, Copy, PartialEq, Eq, Debug, Structural)]
pub enum Located {
    /// At its path.
    AtPath,
    /// In the current directory.
    InCwd,
    /// Nowhere.
    Missing,
}

/// Decides where the engine is. `at_path` tells whether there is a file at its
/// path, and `in_cwd` whether there is one of the same name in the current
/// directory, if the path has a name at all.
pub fn locate_engine(at_path: bool, in_cwd: Option<bool>) -> (located: Located)
    ensures
        located == if at_path || in_cwd is None {
            Located::AtPath
        } else if in_cwd == Some(true) {
            Located::InCwd
        } else {
            Located::Missing
        },
{
    if at_path {
        return Located::AtPath;
    }
    match in_cwd {
        None => Located::AtPath,
        Some(true) => Located::InCwd,
        Some(false) => Located::Missing,
    }
}

/// The seconds that a setting gives, or `default` if there is no setting or
/// none that is a 64-bit number.
pub open spec fn seconds_or(setting: Option<Seq<char>>, default: nat) -> nat {
    match setting {
        Some(text) => match read_number(text, u64::MAX as nat) {
            Some(n) => n,
            None => default,
        },
        None => default,
    }
}

/// Reads a setting in seconds.
fn parse_seconds(setting: Option<String>, default: u64) -> (seconds: u64)
    ensures
        seconds == seconds_or(maybe_text(setting), default as nat),
{
    match setting {
        Some(text) => match parse_number(text.as_str(), u64::MAX) {
            Some(n) => n,
            None => default,
        },
        None => default,
    }
}

/// How long a request may take, in seconds: half a minute if nothing is set.
pub fn http_timeout_secs(setting: Option<String>) -> (seconds: u64)
    ensures
        seconds == seconds_or(maybe_text(setting), 30),
{
    parse_seconds(setting, 30)
}

/// How long a connection may take, in seconds: ten seconds if nothing is set.
pub fn http_connect_timeout_secs(setting: Option<String>) -> (seconds: u64)
    ensures
        seconds == seconds_or(maybe_text(setting), 10),
{
    parse_seconds(setting, 10)
}

/// How the client introduces itself to the server.
pub fn user_agent(name: &str, os: &str, arch: &str, version: &str) -> (agent: String)
    ensures
        agent@ == name@ + seq!['-'] + os@ + seq!['-'] + arch@ + seq!['/'] + version@,
{
    let mut agent = name.to_owned();
    agent.push('-');
    agent.append(os);
    agent.push('-');
    agent.append(arch);
    agent.push('/');
    agent.append(version);
    assert(agent@ =~= name@ + seq!['-'] + os@ + seq!['-'] + arch@ + seq!['/'] + version@);
    agent
}

/// A character that needs no quotation in a Unix shell.
pub open spec fn is_plain(c: char) -> bool {
    ||| 'a' <= c <= 'z'
    ||| 'A' <= c <= 'Z'
    ||| '0' <= c <= '9'
    ||| c == '-' || c == '_' || c == '=' || c == '/' || c == ',' || c == '.' || c == '+'
}

/// `s` between single quotation marks that are still open: an apostrophe or an
/// exclamation mark interrupts them.
pub open spec fn quoted(s: Seq<char>) -> Seq<char>
    decreases s.len(),
{
    if s.len() == 0 {
        seq!['\'']
    } else if s.last() == '\'' || s.last() == '!' {
        quoted(s.drop_last()) + seq!['\'', '\\', s.last(), '\'']
    } else {
        quoted(s.drop_last()).push(s.last())
    }
}

/// `s` as one word of a Unix shell.
pub open spec fn unix_word(s: Seq<char>) -> Seq<char> {
    if s.len() > 0 && (forall|i: int| 0 <= i < s.len() ==> is_plain(#[trigger] s[i])) {
        s
    } else {
        quoted(s).push('\'')
    }
}

/// A character that needs quotation on the Windows command line.
pub open spec fn is_special(c: char) -> bool {
    c == '"' || c == '\t' || c == '\n' || c == ' '
}

/// The backslashes that `s` starts with, if any, lead up to a double quotation
/// mark or to the end.
pub open spec fn leads_to_quote(s: Seq<char>) -> bool
    decreases s.len(),
{
    s.len() == 0 || s[0] == '"' || (s[0] == '\\' && leads_to_quote(s.skip(1)))
}

/// `s` as it stands between double quotation marks: one of its own has a
/// backslash in front, and a backslash that leads up to a quotation mark is
/// doubled.
pub open spec fn backslashed(s: Seq<char>) -> Seq<char>
    decreases s.len(),
{
    if s.len() == 0 {
        Seq::empty()
    } else if s[0] == '"' || (s[0] == '\\' && leads_to_quote(s.skip(1))) {
        seq!['\\', s[0]] + backslashed(s.skip(1))
    } else {
        seq![s[0]] + backslashed(s.skip(1))
    }
}

/// `s` as one word of the Windows command line.
pub open spec fn windows_word(s: Seq<char>) -> Seq<char> {
    if s.len() > 0 && (forall|i: int| 0 <= i < s.len() ==> !is_special(#[trigger] s[i])) {
        s
    } else {
        seq!['"'] + backslashed(s) + seq!['"']
    }
}

/// `word` is `s` as one word of the shell, whichever shell that is.
pub open spec fn is_shell_word(word: Seq<char>, s: Seq<char>) -> bool {
    word == unix_word(s) || word == windows_word(s)
}

/// `shell_escape::escape` makes a text one word of a Unix shell or of the
/// Windows command line. Which one depends on the system that the program was
/// built for and on its environment, and is not stated.
///
/// For a Unix shell a text is left alone that is not empty and has only letters,
/// digits and `-_=/,.+`, and is else put between single quotation marks, which
/// an apostrophe or an exclamation mark interrupts. For Windows a text is left
/// alone that is not empty and has no double quotation mark, tab, line feed or
/// space, and is else put between double quotation marks, with backslashes
/// before the ones in it and doubled before any.
#[verifier::external_body]
fn shell_word(text: String) -> (word: String)
    ensures
        is_shell_word(word@, text@),
{
    shell_escape::escape(text.into()).into_owned()
}

/// `word` is what escaping `text` for the shell has given.
pub closed spec fn is_escaped(text: Seq<char>, word: Seq<char>) -> bool {
    exists|from: String, to: String|
        from@ == text && to@ == word && #[trigger] call_ensures(shell_word, (from,), to)
}

/// The program as it was called, or else as it is called by default, as one
/// word of the shell.
pub fn program_word(program: Option<String>) -> (word: String)
    ensures
        is_escaped(
            match program {
                Some(program) => program@,
                None => "./fishnet"@,
            },
            word@,
        ),
        is_shell_word(
            word@,
            match program {
                Some(program) => program@,
                None => "./fishnet"@,
            },
        ),
{
    let program = match program {
        Some(program) => program,
        None => "./fishnet".to_owned(),
    };
    let ghost text = program;
    let word = shell_word(program);
    assert(call_ensures(shell_word, (text,), word));
    word
}

/// The note on the engines that come with the client, and on how the program
/// `word` shows their license.
pub fn engines_note(official: &str, multi_variant: &str, word: &str) -> (note: String)
    ensures
        note@ == "Engines: "@ + official@ + ", "@ + multi_variant@ + " (for GPLv3, run: "@ + word@
            + " license)"@,
{
    let mut note = "Engines: ".to_owned();
    note.append(official);
    note.append(", ");
    note.append(multi_variant);
    note.append(" (for GPLv3, run: ");
    note.append(word);
    note.append(" license)");
    note
}

/// What the environment names comes first, whatever else there is; what the
/// configuration file names comes next; and the current directory is looked at
/// only if there is no configuration file.
pub proof fn law_environment_then_file_then_directory(
    path: Seq<char>,
    ini: Option<Seq<char>>,
    content: Seq<char>,
    in_cwd: bool,
)
    ensures
        exe_choice(Some(path), ini, in_cwd) == ExeChoiceView::Named(path),
        engine_of_ini(content) matches Some(named) ==> exe_choice(None, Some(content), in_cwd)
            == ExeChoiceView::Named(named),
        !(exe_choice(None, Some(content), in_cwd) is InCwd),
        exe_choice(None, None, true) is InCwd,
        exe_choice(None, None, false) is AsGiven,
{
}

/// How a line of the configuration names an engine: by `engine=` or `engine =`
/// and the name behind it. White space around the line and around the name does
/// not count, and neither do quotation marks around the name.
pub proof fn law_line_names_the_engine(
    front: Seq<char>,
    spaced: bool,
    gap: Seq<char>,
    opening: Seq<char>,
    name: Seq<char>,
    closing: Seq<char>,
    back: Seq<char>,
)
    requires
        all_in(front, Margin::Space),
        all_in(gap, Margin::Space),
        all_in(back, Margin::Space),
        all_in(opening, Margin::Quotes),
        all_in(closing, Margin::Quotes),
        name.len() > 0,
        !Margin::Quotes.holds(name[0]),
        !Margin::Quotes.holds(name[name.len() - 1]),
        !Margin::Space.holds((opening + name + closing)[0]),
        !Margin::Space.holds((opening + name + closing).last()),
    ensures
        ({
            let key = if spaced {
                "engine ="@
            } else {
                "engine="@
            };
            engine_of_line(front + (key + gap + (opening + name + closing)) + back) == Some(name)
        }),
{
    reveal_strlit("engine=");
    reveal_strlit("engine =");
    let key = if spaced {
        "engine ="@
    } else {
        "engine="@
    };
    let inner = opening + name + closing;
    let body = key + gap + inner;
    assert(body[0] == 'e');
    assert(body.last() == inner.last());
    law_trimming_takes_margins_only(front, body, back, Margin::Space);
    assert(key.is_prefix_of(body));
    if spaced {
        assert(body[6] == ' ');
        assert("engine="@[6] == '=');
        assert(!"engine="@.is_prefix_of(body));
    }
    assert(body.skip(key.len() as int) =~= gap + inner + Seq::empty());
    law_trimming_takes_margins_only(gap, inner, Seq::empty(), Margin::Space);
    law_trimming_takes_margins_only(opening, name, closing, Margin::Quotes);
}

/// A line that does not start with `engine=` or `engine =`, white space apart,
/// names no engine, and neither does one with nothing but quotation marks behind
/// that.
pub proof fn law_other_lines_name_no_engine(
    front: Seq<char>,
    body: Seq<char>,
    back: Seq<char>,
    gap: Seq<char>,
    quotes: Seq<char>,
)
    requires
        all_in(front, Margin::Space),
        all_in(back, Margin::Space),
        body.len() > 0 ==> !Margin::Space.holds(body[0]) && !Margin::Space.holds(
            body[body.len() - 1],
        ),
        all_in(gap, Margin::Space),
        all_in(quotes, Margin::Quotes),
    ensures
        !"engine="@.is_prefix_of(body) && !"engine ="@.is_prefix_of(body) ==> engine_of_line(
            front + body + back,
        ) is None,
        body == "engine="@ + gap + quotes || body == "engine ="@ + gap + quotes ==> engine_of_line(
            front + body + back,
        ) is None,
{
    reveal_strlit("engine=");
    reveal_strlit("engine =");
    law_trimming_takes_margins_only(front, body, back, Margin::Space);
    let none = Seq::<char>::empty();
    if body == "engine="@ + gap + quotes || body == "engine ="@ + gap + quotes {
        let key = if body == "engine="@ + gap + quotes {
            "engine="@
        } else {
            "engine ="@
        };
        assert(key.is_prefix_of(body));
        if key == "engine ="@ {
            assert(body[6] == ' ');
            assert(!"engine="@.is_prefix_of(body));
        } else {
            assert(body[6] == '=');
        }
        assert(body.skip(key.len() as int) =~= gap + quotes + none);
        if quotes.len() > 0 {
            assert(Margin::Quotes.holds(quotes[0]));
            assert(Margin::Quotes.holds(quotes[quotes.len() - 1]));
        }
        law_trimming_takes_margins_only(gap, quotes, none, Margin::Space);
        assert(quotes =~= quotes + none + none);
        law_trimming_takes_margins_only(quotes, none, none, Margin::Quotes);
    }
}

/// The first line that names an engine counts: what stands above a line break
/// goes before what stands below it, and a file of one line names what the line
/// names.
pub proof fn law_first_line_that_names_counts(above: Seq<char>, below: Seq<char>)
    ensures
        !above.contains('\n') ==> engine_of_ini(above) == engine_of_line(above),
        engine_of_ini(above) is Some ==> engine_of_ini(above + seq!['\n'] + below)
            == engine_of_ini(above),
        engine_of_ini(above) is None ==> engine_of_ini(above + seq!['\n'] + below)
            == engine_of_ini(below),
{
    law_separator_parts_pieces(above, below, '\n');
    if !above.contains('\n') {
        let one = seq![above];
        assert(one.drop_last() =~= Seq::empty());
        assert(first_engine(one.drop_last()) is None);
    }
    lemma_rows_are_searched_in_order(split(above, '\n'), split(below, '\n'));
}

/// The first row of lines goes before the second.
proof fn lemma_rows_are_searched_in_order(first: Seq<Seq<char>>, second: Seq<Seq<char>>)
    ensures
        first_engine(first) is Some ==> first_engine(first + second) == first_engine(first),
        first_engine(first) is None ==> first_engine(first + second) == first_engine(second),
    decreases second.len(),
{
    if second.len() > 0 {
        assert((first + second).drop_last() =~= first + second.drop_last());
        assert((first + second).last() == second.last());
        lemma_rows_are_searched_in_order(first, second.drop_last());
    } else {
        assert(first + second =~= first);
    }
}

/// What the configuration file names is what is read from it, and what is chosen
/// follows from it: if there is a file that names nothing, the engine is the one
/// that is given, even if there is one in the current directory.
pub proof fn law_chosen_engine(
    env_path: Option<String>,
    ini: Option<String>,
    in_cwd: bool,
    choice: ExeChoice,
)
    requires
        call_ensures(choose_exe, (env_path, ini, in_cwd), choice),
    ensures
        env_path matches Some(path) ==> choice@ == ExeChoiceView::Named(path@),
        env_path is None && ini is Some ==> match engine_of_ini(ini->0@) {
            Some(named) => choice@ == ExeChoiceView::Named(named),
            None => choice is AsGiven,
        },
        env_path is None && ini is None && in_cwd ==> choice is InCwd,
        env_path is None && ini is None && !in_cwd ==> choice is AsGiven,
{
}

/// An engine is started at its path if it is there, and else from the current
/// directory if it is there. It is missing only if it is at neither place; a path
/// without a name cannot be looked up in the current directory, and is tried.
pub proof fn law_located_engine(at_path: bool, in_cwd: Option<bool>, located: Located)
    requires
        call_ensures(locate_engine, (at_path, in_cwd), located),
    ensures
        located is InCwd <==> !at_path && in_cwd == Some(true),
        located is Missing <==> !at_path && in_cwd == Some(false),
        located is AtPath <==> at_path || in_cwd is None,
{
    if let Some(found) = in_cwd {
        assert(found == true || found == false);
    }
}

/// The time limits are half a minute for a request and ten seconds for a
/// connection, unless a setting says otherwise in seconds; one that is no number
/// does not count.
pub proof fn law_time_limits(setting: Option<String>, request: u64, connection: u64)
    requires
        call_ensures(http_timeout_secs, (setting,), request),
        call_ensures(http_connect_timeout_secs, (setting,), connection),
    ensures
        setting is None ==> request == 30 && connection == 10,
        setting matches Some(text) ==> match read_number(text@, 0xffff_ffff_ffff_ffff) {
            Some(seconds) => request == seconds && connection == seconds,
            None => request == 30 && connection == 10,
        },
{
}

/// The client introduces itself by its name, the system, the processor and its
/// version, and the note on the engines names both of them and the program.
pub proof fn law_what_the_client_says(
    a: &str,
    b: &str,
    c: &str,
    d: &str,
    agent: String,
    note: String,
)
    requires
        call_ensures(user_agent, (a, b, c, d), agent),
        call_ensures(engines_note, (a, b, c), note),
    ensures
        agent@ == a@ + seq!['-'] + b@ + seq!['-'] + c@ + seq!['/'] + d@,
        note@ == "Engines: "@ + a@ + ", "@ + b@ + " (for GPLv3, run: "@ + c@ + " license)"@,
{
}

/// The program is shown as one word of the shell, as it was called, or as
/// `./fishnet` if that is not known.
pub proof fn law_program_is_shown_as_a_word(program: Option<String>, word: String)
    requires
        call_ensures(program_word, (program,), word),
    ensures
        program matches Some(program) ==> is_escaped(program@, word@) && is_shell_word(
            word@,
            program@,
        ),
        program is None ==> is_escaped("./fishnet"@, word@) && is_shell_word(
            word@,
            "./fishnet"@,
        ),
{
}

} // verus!
