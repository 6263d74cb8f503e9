//! The command parser: one text line in, one action or a parse error out.
//!
//! A line is split on its first space into a verb and an argument.  The
//! verb decides the action; the argument of `click` is an identifier
//! expression `kind(arg)` or `kind(arg, index)`.  Every function's
//! contract states the outcome over the character sequences involved, so
//! a caller knows exactly which action, or which error, each line yields.

use vstd::prelude::*;

use crate::action_executor::{Action, HtmlElementIdentifier};
use crate::text::{
    chars_eq_str, contains_pat, chars_to_string, dec_val, is_first_delim, is_index_string,
    lemma_first_delim_unique, parse_usize, remove_char, split_any, split_any_exec, subvec,
    to_char_vec, trim, trim_exec, remove_char_exec,
};

verus! {

/// The delimiters of an identifier expression.
pub open spec fn expr_delims() -> Seq<char> {
    seq!['(', ',']
}

/// The fields of an identifier expression: the argument split on `(` and
/// `,`, each field trimmed, and the last field first stripped of closing
/// parentheses and trimmed again.
pub open spec fn expr_parts(s: Seq<char>) -> Seq<Seq<char>> {
    let raw = split_any(s, expr_delims());
    let head = Seq::new((raw.len() - 1) as nat, |k: int| trim(raw[k]));
    head.push(trim(remove_char(trim(raw.last()), ')')))
}

/// Why a command line was rejected.
#[derive(Debug, Clone, Copy, PartialEq, Eq, Structural)]
pub enum ParseError {
    /// The verb before the first space is not a known command.
    UnknownCommand,
    /// A command carries the wrong number of arguments.
    WrongArgCount,
    /// The argument of `click` is not a well-formed identifier expression.
    MalformedIdentifier,
    /// The line has no space separating a verb from its argument.
    MissingSeparator,
}

/// What parsing an identifier expression must yield.  The expression is
/// split on `(` and `,`, each field is trimmed, and the last field loses
/// its closing parentheses; the first field names the kind, the rest are
/// its arguments.  `id` takes one argument, `name` and `class` take a
/// second, a decimal index; anything else is malformed.
pub open spec fn ident_outcome(
    arg: Seq<char>,
    r: Result<HtmlElementIdentifier, ParseError>,
) -> bool {
    let parts = expr_parts(arg);
    if parts[0] == "id"@ {
        if parts.len() == 2 {
            r matches Ok(HtmlElementIdentifier::Id(x)) && x@ == parts[1]
        } else {
            r matches Err(ParseError::MalformedIdentifier)
        }
    } else if parts[0] == "name"@ {
        if parts.len() == 3 && is_index_string(parts[2]) {
            r matches Ok(HtmlElementIdentifier::Name(x, i)) && x@ == parts[1] && i as int
                == dec_val(parts[2])
        } else {
            r matches Err(ParseError::MalformedIdentifier)
        }
    } else if parts[0] == "class"@ {
        if parts.len() == 3 && is_index_string(parts[2]) {
            r matches Ok(HtmlElementIdentifier::Class(x, i)) && x@ == parts[1] && i as int
                == dec_val(parts[2])
        } else {
            r matches Err(ParseError::MalformedIdentifier)
        }
    } else {
        r matches Err(ParseError::MalformedIdentifier)
    }
}

/// What parsing one line must yield.  A line with a space is verb and
/// argument; a line without one is rejected, except the bare `enter`,
/// which needs no argument.
pub open spec fn line_outcome(line: Seq<char>, r: Result<Action, ParseError>) -> bool {
    if exists|i: int| is_first_delim(line, seq![' '], i) {
        let i = choose|i: int| is_first_delim(line, seq![' '], i);
        let verb = line.take(i);
        let arg = line.skip(i + 1);
        if verb == "type"@ {
            r matches Ok(Action::Type(t)) && t@ == arg
        } else if verb == "click"@ {
            (r matches Ok(Action::Click(id)) && ident_outcome(arg, Ok(id))) || (r matches Err(
                e,
            ) && ident_outcome(arg, Err(e)))
        } else if verb == "goto"@ {
            r matches Ok(Action::GoTo(u)) && u@ == arg
        } else if verb == "enter"@ {
            r matches Ok(Action::PressEnter)
        } else if verb == "execute"@ {
            r matches Ok(Action::RunScript(p)) && p@ == arg
        } else {
            r matches Err(ParseError::UnknownCommand)
        }
    } else if line == "enter"@ {
        r matches Ok(Action::PressEnter)
    } else {
        r matches Err(ParseError::MissingSeparator)
    }
}

/// The fields of an identifier expression: split on `(` and `,`, trimmed,
/// the last field stripped of closing parentheses.
pub fn parse_expression(input: &str) -> (r: Vec<String>)
    ensures
        r@.len() == expr_parts(input@).len(),
        forall|k: int| 0 <= k < r@.len() ==> r@[k]@ == expr_parts(input@)[k],
{
    let v = to_char_vec(input);
    let parts = expr_parts_exec(&v);
    let mut r: Vec<String> = Vec::new();
    let mut k: usize = 0;
    while k < parts.len()
        invariant
            k <= parts@.len(),
            r@.len() == k,
            parts@.len() == expr_parts(input@).len(),
            forall|j: int| 0 <= j < parts@.len() ==> parts@[j]@ == expr_parts(input@)[j],
            forall|j: int| 0 <= j < k ==> r@[j]@ == expr_parts(input@)[j],
        decreases parts@.len() - k,
    {
        r.push(chars_to_string(&parts[k]));
        k = k + 1;
    }
    r
}

/// The fields of an identifier expression, as character vectors.
fn expr_parts_exec(v: &Vec<char>) -> (r: Vec<Vec<char>>)
    ensures
        r@.len() == expr_parts(v@).len(),
        forall|k: int| 0 <= k < r@.len() ==> r@[k]@ == expr_parts(v@)[k],
{
    let mut delims: Vec<char> = Vec::new();
    delims.push('(');
    delims.push(',');
    proof {
        assert(delims@ =~= expr_delims());
    }
    let raw = split_any_exec(v, &delims);
    let ghost rs = split_any(v@, expr_delims());
    let mut r: Vec<Vec<char>> = Vec::new();
    let n = raw.len();
    proof {
        crate::text::lemma_split_any_nonempty(v@, expr_delims());
    }
    let mut k: usize = 0;
    while k < n - 1
        invariant
            k <= n - 1,
            n >= 1,
            n == raw@.len(),
            raw@.len() == rs.len(),
            forall|j: int| 0 <= j < rs.len() ==> raw@[j]@ == rs[j],
            r@.len() == k,
            forall|j: int| 0 <= j < k ==> r@[j]@ == trim(rs[j]),
        decreases n - 1 - k,
    {
        r.push(trim_exec(&raw[k]));
        k = k + 1;
    }
    let t1 = trim_exec(&raw[n - 1]);
    let t2 = remove_char_exec(&t1, ')');
    let t3 = trim_exec(&t2);
    r.push(t3);
    proof {
        let parts = expr_parts(v@);
        assert(rs.last() == rs[rs.len() - 1]);
        assert(parts.len() == rs.len());
        assert(forall|j: int| 0 <= j < rs.len() - 1 ==> parts[j] == trim(rs[j]));
        assert(r@[r@.len() - 1]@ == parts[parts.len() - 1]);
    }
    r
}

/// Parse the argument of `click` into an element identifier.
pub fn extract_html_identifier(arg: String) -> (r: Result<HtmlElementIdentifier, ParseError>)
    ensures
        ident_outcome(arg@, r),
{
    let v = to_char_vec(arg.as_str());
    let parts = expr_parts_exec(&v);
    proof {
        assert(expr_parts(arg@).len() >= 1);
    }
    let kind = &parts[0];
    if chars_eq_str(kind, "id") {
        if parts.len() == 2 {
            Ok(HtmlElementIdentifier::Id(chars_to_string(&parts[1])))
        } else {
            Err(ParseError::MalformedIdentifier)
        }
    } else if chars_eq_str(kind, "name") {
        if parts.len() == 3 {
            match parse_usize(&parts[2]) {
                Some(i) => Ok(
                    HtmlElementIdentifier::Name(chars_to_string(&parts[1]), i),
                ),
                None => Err(ParseError::MalformedIdentifier),
            }
        } else {
            Err(ParseError::MalformedIdentifier)
        }
    } else if chars_eq_str(kind, "class") {
        if parts.len() == 3 {
            match parse_usize(&parts[2]) {
                Some(i) => Ok(
                    HtmlElementIdentifier::Class(chars_to_string(&parts[1]), i),
                ),
                None => Err(ParseError::MalformedIdentifier),
            }
        } else {
            Err(ParseError::MalformedIdentifier)
        }
    } else {
        Err(ParseError::MalformedIdentifier)
    }
}

/// Parse one command line into its action.
fn parse_action(line: &Vec<char>) -> (r: Result<Action, ParseError>)
    ensures
        line_outcome(line@, r),
{
    let mut space: Vec<char> = Vec::new();
    space.push(' ');
    proof {
        assert(space@ =~= seq![' ']);
    }
    match crate::text::find_first_delim(line, &space) {
        Some(i) => {
            proof {
                let w = choose|w: int| is_first_delim(line@, seq![' '], w);
                lemma_first_delim_unique(line@, seq![' '], w, i as int);
            }
            let n = line.len();
            let verb = subvec(line, 0, i);
            let arg = subvec(line, i + 1, n);
            proof {
                assert(verb@ =~= line@.take(i as int));
                assert(arg@ =~= line@.skip(i + 1));
            }
            if chars_eq_str(&verb, "type") {
                Ok(Action::Type(chars_to_string(&arg)))
            } else if chars_eq_str(&verb, "click") {
                match extract_html_identifier(chars_to_string(&arg)) {
                    Ok(id) => Ok(Action::Click(id)),
                    Err(e) => Err(e),
                }
            } else if chars_eq_str(&verb, "goto") {
                Ok(Action::GoTo(chars_to_string(&arg)))
            } else if chars_eq_str(&verb, "enter") {
                Ok(Action::PressEnter)
            } else if chars_eq_str(&verb, "execute") {
                Ok(Action::RunScript(chars_to_string(&arg)))
            } else {
                Err(ParseError::UnknownCommand)
            }
        },
        None => {
            let whole = subvec(line, 0, line.len());
            proof {
                assert(whole@ =~= line@);
            }
            if chars_eq_str(&whole, "enter") {
                Ok(Action::PressEnter)
            } else {
                Err(ParseError::MissingSeparator)
            }
        },
    }
}

/// A line of a script that failed to parse; the loader logs it and goes
/// on with the rest of the file.
#[derive(Debug, Clone, PartialEq)]
pub struct ParseFailure {
    /// The expanded line as it was handed to the parser.
    pub line: String,
    /// Why it was rejected.
    pub error: ParseError,
}

/// `e` is a legal expansion of `line`: every occurrence of the first-name
/// token replaced by one generated name, then every occurrence of the
/// email token replaced by one generated address.  The generated values
/// are not pinned down: two expansions of one line may differ.
pub open spec fn is_expansion_of(e: Seq<char>, line: Seq<char>) -> bool {
    exists|f: Seq<char>, m: Seq<char>|
        {
            &&& crate::cmd_functions::is_fresh_first_name(f)
            &&& crate::cmd_functions::is_fresh_email(m)
            &&& e == crate::text::replace_all(
                crate::text::replace_all(line, crate::cmd_functions::first_name_token(), f),
                crate::cmd_functions::email_token(),
                m,
            )
        }
}

/// Replace each placeholder token with a freshly generated value, by
/// literal substring replacement, before the line is parsed.
pub fn replace_placeholders(cmd: String) -> (r: String)
    ensures
        is_expansion_of(r@, cmd@),
{
    let cv = to_char_vec(cmd.as_str());
    let tok1 = to_char_vec("@NewFirstName");
    let name = crate::cmd_functions::new_first_name();
    let namev = to_char_vec(name.as_str());
    let step1 = crate::text::replace_all_exec(&cv, &tok1, &namev);
    let tok2 = to_char_vec("@NewEmailAddress");
    let mail = crate::cmd_functions::new_email_addr();
    let mailv = to_char_vec(mail.as_str());
    let step2 = crate::text::replace_all_exec(&step1, &tok2, &mailv);
    let r = chars_to_string(&step2);
    proof {
        assert(tok1@ == crate::cmd_functions::first_name_token());
        assert(tok2@ == crate::cmd_functions::email_token());
    }
    r
}

/// A trimmed line the loader keeps: non-blank and not a `//` comment.
pub open spec fn is_kept(t: Seq<char>) -> bool {
    &&& t.len() > 0
    &&& !(t.len() >= 2 && t[0] == '/' && t[1] == '/')
}

/// The trimmed kept lines of a line list, in order.
pub open spec fn kept_of(ls: Seq<Seq<char>>) -> Seq<Seq<char>>
    decreases ls.len(),
{
    if ls.len() == 0 {
        Seq::empty()
    } else {
        let r = kept_of(ls.drop_last());
        if is_kept(trim(ls.last())) {
            r.push(trim(ls.last()))
        } else {
            r
        }
    }
}

/// The kept lines of a file's content: split on newlines, trimmed, blank
/// and comment lines dropped.
pub open spec fn content_kept(c: Seq<char>) -> Seq<Seq<char>> {
    kept_of(split_any(c, seq!['\n']))
}

/// Each kept line has one legal expansion in `es`.
pub open spec fn expansion_seq(es: Seq<Seq<char>>, ks: Seq<Seq<char>>) -> bool {
    &&& es.len() == ks.len()
    &&& forall|i: int| 0 <= i < es.len() ==> is_expansion_of(#[trigger] es[i], ks[i])
}

/// What parsing a list of expanded lines yields: each line that parses
/// contributes its action, in order; each line that does not contributes
/// one recorded failure, in order; nothing else appears.
pub open spec fn lines_outcome(
    es: Seq<Seq<char>>,
    acts: Seq<Action>,
    fails: Seq<ParseFailure>,
) -> bool
    decreases es.len(),
{
    if es.len() == 0 {
        acts.len() == 0 && fails.len() == 0
    } else {
        let l = es.last();
        ||| (acts.len() > 0 && line_outcome(l, Ok(acts.last())) && lines_outcome(
            es.drop_last(),
            acts.drop_last(),
            fails,
        ))
        ||| (fails.len() > 0 && line_outcome(l, Err(fails.last().error)) && fails.last().line@
            == l && lines_outcome(es.drop_last(), acts, fails.drop_last()))
    }
}

/// What loading one file's content yields: for some legal expansion of its
/// kept lines, the actions and recorded failures of those lines.  Blank
/// and comment lines are dropped before expansion, so they contribute
/// neither an action nor a failure.
pub open spec fn content_outcome(
    c: Seq<char>,
    acts: Seq<Action>,
    fails: Seq<ParseFailure>,
) -> bool {
    exists|es: Seq<Seq<char>>|
        #[trigger] expansion_seq(es, content_kept(c)) && lines_outcome(es, acts, fails)
}

/// Turn one file's content into actions: split into lines, drop blank and
/// comment lines, expand placeholders, parse each line; a line that fails
/// to parse is recorded and skipped, and loading goes on.
pub fn parse_commands_from_content(content: &str) -> (r: (Vec<Action>, Vec<ParseFailure>))
    ensures
        content_outcome(content@, r.0@, r.1@),
{
    let cv = to_char_vec(content);
    let mut nl: Vec<char> = Vec::new();
    nl.push('\n');
    proof {
        assert(nl@ =~= seq!['\n']);
    }
    let rawlines = split_any_exec(&cv, &nl);
    let ghost rls = split_any(content@, seq!['\n']);
    let mut acts: Vec<Action> = Vec::new();
    let mut fails: Vec<ParseFailure> = Vec::new();
    let ghost mut es = Seq::<Seq<char>>::empty();
    let mut k: usize = 0;
    proof {
        assert(rls.take(0) =~= Seq::<Seq<char>>::empty());
    }
    while k < rawlines.len()
        invariant
            k <= rawlines@.len(),
            rawlines@.len() == rls.len(),
            forall|j: int| 0 <= j < rls.len() ==> rawlines@[j]@ == rls[j],
            expansion_seq(es, kept_of(rls.take(k as int))),
            lines_outcome(es, acts@, fails@),
        decreases rawlines@.len() - k,
    {
        let t = trim_exec(&rawlines[k]);
        proof {
            assert(rls.take((k + 1) as int).drop_last() =~= rls.take(k as int));
            assert(rls.take((k + 1) as int).last() == rls[k as int]);
        }
        let keep = t.len() > 0 && !(t.len() >= 2 && t[0] == '/' && t[1] == '/');
        if keep {
            let line_str = chars_to_string(&t);
            let expanded = replace_placeholders(line_str);
            let ghost prev_es = es;
            proof {
                es = es.push(expanded@);
            }
            let ghost prev_acts = acts@;
            let ghost prev_fails = fails@;
            match parse(expanded.clone()) {
                Ok(mut v) => {
                    let a = v.remove(0);
                    acts.push(a);
                    proof {
                        assert(es.drop_last() =~= prev_es);
                        assert(acts@.drop_last() =~= prev_acts);
                        assert(es.last() == expanded@);
                        assert(line_outcome(es.last(), Ok(acts@.last())));
                        assert(lines_outcome(es, acts@, fails@));
                    }
                },
                Err(e) => {
                    fails.push(ParseFailure { line: expanded.clone(), error: e });
                    proof {
                        assert(es.drop_last() =~= prev_es);
                        assert(fails@.drop_last() =~= prev_fails);
                        assert(es.last() == expanded@);
                        assert(line_outcome(es.last(), Err(fails@.last().error)));
                        assert(fails@.last().line@ == es.last());
                        assert(lines_outcome(es, acts@, fails@));
                    }
                },
            }
        }
        k = k + 1;
    }
    proof {
        assert(rls.take(rls.len() as int) =~= rls);
        assert(expansion_seq(es, content_kept(content@)));
    }
    (acts, fails)
}

/// One script file held in memory: its path and its text.  The surrounding
/// program reads files from disk into this form; the loader itself never
/// touches the file system.
#[derive(Debug, Clone, PartialEq)]
pub struct ScriptFile {
    pub path: String,
    pub content: String,
}

/// Why a whole load failed.  An unreadable script is the one fatal
/// condition of a load: no actions can come of it, so the error
/// propagates to the caller instead of being skipped.
#[derive(Debug, Clone, PartialEq)]
pub enum LoadError {
    /// No file of that path was given.
    FileNotFound(String),
    /// Scripts nest deeper than the allowed depth.
    TooDeep,
}

/// Index `k` holds the first file whose path is `path`.
pub open spec fn is_first_file_match(files: Seq<ScriptFile>, k: int, path: Seq<char>) -> bool {
    &&& 0 <= k < files.len()
    &&& files[k].path@ == path
    &&& forall|j: int| 0 <= j < k ==> (#[trigger] files[j].path)@ != path
}

/// Two first matches are the same one.
pub proof fn lemma_first_file_match_unique(
    files: Seq<ScriptFile>,
    path: Seq<char>,
    k1: int,
    k2: int,
)
    requires
        is_first_file_match(files, k1, path),
        is_first_file_match(files, k2, path),
    ensures
        k1 == k2,
{
}

/// The results of the actions of one file, combined in order: the first
/// error stands, successes are concatenated.
pub open spec fn combined(subs: Seq<Result<Seq<Action>, LoadError>>) -> Result<
    Seq<Action>,
    LoadError,
>
    decreases subs.len(),
{
    if subs.len() == 0 {
        Ok(Seq::empty())
    } else {
        match combined(subs.drop_last()) {
            Err(e) => Err(e),
            Ok(p) => match subs.last() {
                Err(e) => Err(e),
                Ok(s) => Ok(p + s),
            },
        }
    }
}

/// The recursion-free part of one load: the kept lines `ks` have the
/// expansion `es`, which parses to `acts` and `fails`; `subs` holds the
/// contribution of each handled action in turn, and `res` is their
/// combination.  A load that succeeds has handled every action; one that
/// fails stopped at the first error.
pub open spec fn load_parts(
    es: Seq<Seq<char>>,
    ks: Seq<Seq<char>>,
    acts: Seq<Action>,
    fails: Seq<ParseFailure>,
    subs: Seq<Result<Seq<Action>, LoadError>>,
    res: Result<Seq<Action>, LoadError>,
) -> bool {
    &&& expansion_seq(es, ks)
    &&& lines_outcome(es, acts, fails)
    &&& subs.len() <= acts.len()
    &&& res == combined(subs)
    &&& (res is Ok ==> subs.len() == acts.len())
}

/// One action's contribution to a load at this depth: a plain action
/// stands for itself; an `execute` action stands for the whole load of
/// its file, one level deeper.
pub open spec fn action_loads(
    files: Seq<ScriptFile>,
    depth: nat,
    a: Action,
    r: Result<Seq<Action>, LoadError>,
) -> bool
    decreases depth, 0int,
{
    match a {
        Action::RunScript(p) => depth > 0 && loads_to(files, p@, (depth - 1) as nat, r),
        _ => r matches Ok(v) && v == seq![a],
    }
}

/// What loading the file at `path` yields, against the given in-memory
/// files, with at most `depth` levels of nesting: the actions of its kept
/// lines, in file order, with every `execute` line replaced in place by
/// the whole load of the named file, and the first failed nested load
/// aborting the whole load.  A missing file, at any level, fails the load
/// that asked for it.
pub open spec fn loads_to(
    files: Seq<ScriptFile>,
    path: Seq<char>,
    depth: nat,
    res: Result<Seq<Action>, LoadError>,
) -> bool
    decreases depth, 1int,
{
    if depth == 0 {
        res matches Err(LoadError::TooDeep)
    } else if !(exists|k: int| is_first_file_match(files, k, path)) {
        res matches Err(LoadError::FileNotFound(p)) && p@ == path
    } else {
        let k = choose|k: int| is_first_file_match(files, k, path);
        exists|
            es: Seq<Seq<char>>,
            acts: Seq<Action>,
            fails: Seq<ParseFailure>,
            subs: Seq<Result<Seq<Action>, LoadError>>,
        |
            #[trigger] load_parts(es, content_kept(files[k].content@), acts, fails, subs, res)
                && forall|i: int|
                0 <= i < subs.len() ==> action_loads(files, depth, acts[i], #[trigger] subs[i])
    }
}

/// The position of the first file of that path, if any is given.
fn find_file(files: &Vec<ScriptFile>, path: &Vec<char>) -> (r: Option<usize>)
    ensures
        match r {
            Some(k) => is_first_file_match(files@, k as int, path@),
            None => forall|k: int| !is_first_file_match(files@, k, path@),
        },
{
    let mut k: usize = 0;
    while k < files.len()
        invariant
            k <= files@.len(),
            forall|j: int| 0 <= j < k ==> (#[trigger] files@[j].path)@ != path@,
        decreases files@.len() - k,
    {
        if chars_eq_str(path, files[k].path.as_str()) {
            return Some(k);
        }
        k = k + 1;
    }
    None
}

/// The pieces of one successful lookup assemble into a whole load.
proof fn lemma_assemble_load(
    files: Seq<ScriptFile>,
    path: Seq<char>,
    depth: nat,
    k: int,
    es: Seq<Seq<char>>,
    acts: Seq<Action>,
    fails: Seq<ParseFailure>,
    subs: Seq<Result<Seq<Action>, LoadError>>,
    res: Result<Seq<Action>, LoadError>,
)
    requires
        depth >= 1,
        is_first_file_match(files, k, path),
        load_parts(es, content_kept(files[k].content@), acts, fails, subs, res),
        forall|i: int|
            0 <= i < subs.len() ==> action_loads(files, depth, acts[i], #[trigger] subs[i]),
    ensures
        loads_to(files, path, depth, res),
{
    let kc = choose|kc: int| is_first_file_match(files, kc, path);
    lemma_first_file_match_unique(files, path, kc, k);
}

/// Load the script at `path` from the given in-memory files and flatten
/// every nested `execute` into the parent sequence, in file order, down to
/// at most `depth` levels.  Lines that fail to parse are appended to `log`
/// and skipped; a missing file or too-deep nesting fails the whole load.
pub fn load_script(
    files: &Vec<ScriptFile>,
    path: &str,
    depth: u64,
    log: &mut Vec<ParseFailure>,
) -> (r: Result<Vec<Action>, LoadError>)
    ensures
        match r {
            Ok(v) => loads_to(files@, path@, depth as nat, Ok(v@)),
            Err(e) => loads_to(files@, path@, depth as nat, Err(e)),
        },
        old(log)@.is_prefix_of(final(log)@),
    decreases depth,
{
    if depth == 0 {
        return Err(LoadError::TooDeep);
    }
    let pv = to_char_vec(path);
    let k = match find_file(files, &pv) {
        None => {
            return Err(LoadError::FileNotFound(chars_to_string(&pv)));
        },
        Some(k) => k,
    };
    let (acts0, mut fails0) = parse_commands_from_content(files[k].content.as_str());
    let ghost es = choose|es: Seq<Seq<char>>|
        #[trigger] expansion_seq(es, content_kept(files@[k as int].content@))
            && lines_outcome(es, acts0@, fails0@);
    let ghost fails_view = fails0@;
    log.append(&mut fails0);
    let mut out: Vec<Action> = Vec::new();
    let ghost mut subs = Seq::<Result<Seq<Action>, LoadError>>::empty();
    let mut i: usize = 0;
    while i < acts0.len()
        invariant
            i <= acts0@.len(),
            depth >= 1,
            is_first_file_match(files@, k as int, pv@),
            pv@ == path@,
            expansion_seq(es, content_kept(files@[k as int].content@)),
            lines_outcome(es, acts0@, fails_view),
            old(log)@.is_prefix_of(log@),
            subs.len() == i,
            forall|j: int|
                0 <= j < subs.len() ==> action_loads(
                    files@,
                    depth as nat,
                    acts0@[j],
                    #[trigger] subs[j],
                ),
            combined(subs) == Ok::<Seq<Action>, LoadError>(out@),
        decreases acts0@.len() - i,
    {
        let ghost prev_out = out@;
        let ghost prev_subs = subs;
        let a = &acts0[i];
        match a {
            Action::RunScript(p) => {
                match load_script(files, p.as_str(), depth - 1, log) {
                    Ok(mut sub) => {
                        let ghost subv = sub@;
                        out.append(&mut sub);
                        proof {
                            subs = subs.push(Ok(subv));
                            assert(subs.drop_last() =~= prev_subs);
                            assert(combined(subs) == Ok::<Seq<Action>, LoadError>(
                                prev_out + subv,
                            ));
                            assert(action_loads(
                                files@,
                                depth as nat,
                                acts0@[i as int],
                                Ok(subv),
                            ));
                        }
                    },
                    Err(e) => {
                        proof {
                            subs = subs.push(Err(e));
                            assert(subs.drop_last() =~= prev_subs);
                            assert(combined(subs) == Err::<Seq<Action>, LoadError>(e));
                            assert(action_loads(
                                files@,
                                depth as nat,
                                acts0@[i as int],
                                Err(e),
                            ));
                            assert(load_parts(
                                es,
                                content_kept(files@[k as int].content@),
                                acts0@,
                                fails_view,
                                subs,
                                Err(e),
                            ));
                            lemma_assemble_load(
                                files@,
                                path@,
                                depth as nat,
                                k as int,
                                es,
                                acts0@,
                                fails_view,
                                subs,
                                Err(e),
                            );
                        }
                        return Err(e);
                    },
                }
            },
            _ => {
                out.push(a.duplicate());
                proof {
                    subs = subs.push(Ok(seq![acts0@[i as int]]));
                    assert(subs.drop_last() =~= prev_subs);
                    assert(prev_out + seq![acts0@[i as int]] =~= out@);
                    assert(combined(subs) == Ok::<Seq<Action>, LoadError>(out@));
                    assert(action_loads(
                        files@,
                        depth as nat,
                        acts0@[i as int],
                        Ok(seq![acts0@[i as int]]),
                    ));
                }
            },
        }
        i = i + 1;
    }
    proof {
        assert(load_parts(
            es,
            content_kept(files@[k as int].content@),
            acts0@,
            fails_view,
            subs,
            Ok(out@),
        ));
        lemma_assemble_load(
            files@,
            path@,
            depth as nat,
            k as int,
            es,
            acts0@,
            fails_view,
            subs,
            Ok(out@),
        );
    }
    Ok(out)
}

/// Parse one command line.  A successful parse yields exactly one action.
pub fn parse(command: String) -> (r: Result<Vec<Action>, ParseError>)
    ensures
        match r {
            Ok(v) => v@.len() == 1 && line_outcome(command@, Ok(v@[0])),
            Err(e) => line_outcome(command@, Err(e)),
        },
{
    let line = to_char_vec(command.as_str());
    match parse_action(&line) {
        Ok(a) => {
            let mut v: Vec<Action> = Vec::new();
            v.push(a);
            Ok(v)
        },
        Err(e) => Err(e),
    }
}

/// Blank lines and `//` comment lines contribute nothing: a file whose
/// every line is dropped yields no actions and no recorded parse
/// failures.
pub proof fn lemma_comments_and_blanks_yield_nothing(
    c: Seq<char>,
    acts: Seq<Action>,
    fails: Seq<ParseFailure>,
)
    requires
        content_outcome(c, acts, fails),
        content_kept(c).len() == 0,
    ensures
        acts.len() == 0,
        fails.len() == 0,
{
    let es = choose|es: Seq<Seq<char>>|
        #[trigger] expansion_seq(es, content_kept(c)) && lines_outcome(es, acts, fails);
    assert(es.len() == 0);
}

/// Expanding the line `type @NewFirstName` puts one generated first name
/// after the verb, and the expanded line never contains the token itself.
/// Expanding it twice may legally put two different names there: nothing
/// ties one expansion to another.
pub proof fn lemma_type_placeholder_expansion(e: Seq<char>)
    requires
        is_expansion_of(e, "type @NewFirstName"@),
    ensures
        exists|f: Seq<char>|
            #[trigger] crate::cmd_functions::is_fresh_first_name(f) && e == "type "@ + f,
        !contains_pat(e, crate::cmd_functions::first_name_token()),
{
    reveal_strlit("type @NewFirstName");
    reveal_strlit("@NewFirstName");
    reveal_strlit("@NewEmailAddress");
    reveal_strlit("type ");
    let line = "type @NewFirstName"@;
    let tok1 = crate::cmd_functions::first_name_token();
    let tok2 = crate::cmd_functions::email_token();
    let (f, m) = choose|f: Seq<char>, m: Seq<char>|
        {
            &&& crate::cmd_functions::is_fresh_first_name(f)
            &&& crate::cmd_functions::is_fresh_email(m)
            &&& e == crate::text::replace_all(
                crate::text::replace_all(line, tok1, f),
                tok2,
                m,
            )
        };
    assert(line.subrange(5, 5 + tok1.len() as int) =~= tok1);
    assert(crate::text::matches_at(line, tok1, 5));
    assert forall|j: int| 0 <= j < 5 implies !crate::text::matches_at(line, tok1, j) by {
        if crate::text::matches_at(line, tok1, j) {
            crate::text::lemma_match_starts(line, tok1, j);
        }
    }
    assert(crate::text::is_first_match(line, tok1, 5));
    let i = choose|i: int| crate::text::is_first_match(line, tok1, i);
    crate::text::lemma_first_match_unique(line, tok1, i, 5);
    let tail = line.skip(5 + tok1.len() as int);
    assert(tail =~= Seq::<char>::empty());
    assert(forall|w: int| !crate::text::matches_at(tail, tok1, w));
    assert(crate::text::replace_all(tail, tok1, f) == tail);
    let step1 = crate::text::replace_all(line, tok1, f);
    assert(step1 == line.take(5) + f + tail);
    assert(line.take(5) + f + tail =~= "type "@ + f);
    assert forall|j: int| 0 <= j < step1.len() implies step1[j] != '@' by {
        if j >= 5 {
            assert(crate::cmd_functions::is_alnum(f[j - 5]));
        }
    }
    crate::text::lemma_absent_head(step1, tok2);
    crate::text::lemma_replace_absent(step1, tok2, m);
    assert(e == "type "@ + f);
    crate::text::lemma_absent_head(e, tok1);
}

/// Nested inclusion is exact: a script whose only kept line is
/// `execute <p>`, with no placeholder token in it, loads to exactly what
/// the script at `<p>` loads to one level deeper — the flattened actions
/// on success, and the nested hard failure itself on failure.
pub proof fn lemma_single_execute_line(
    files: Seq<ScriptFile>,
    path: Seq<char>,
    p: Seq<char>,
    k: int,
    depth: nat,
    res: Result<Seq<Action>, LoadError>,
)
    requires
        depth >= 1,
        loads_to(files, path, depth, res),
        is_first_file_match(files, k, path),
        content_kept(files[k].content@) == seq!["execute "@ + p],
        forall|j: int| 0 <= j < p.len() ==> p[j] != '@',
    ensures
        loads_to(files, p, (depth - 1) as nat, res),
{
    reveal_strlit("execute ");
    reveal_strlit("execute");
    reveal_strlit("@NewFirstName");
    reveal_strlit("@NewEmailAddress");
    reveal_strlit("enter");
    reveal_strlit("type");
    reveal_strlit("click");
    reveal_strlit("goto");
    let kc = choose|kc: int| is_first_file_match(files, kc, path);
    lemma_first_file_match_unique(files, path, kc, k);
    let l = "execute "@ + p;
    let (es, acts, fails, subs) = choose|
        es: Seq<Seq<char>>,
        acts: Seq<Action>,
        fails: Seq<ParseFailure>,
        subs: Seq<Result<Seq<Action>, LoadError>>,
    |
        #[trigger] load_parts(es, content_kept(files[kc].content@), acts, fails, subs, res)
            && forall|i: int|
            0 <= i < subs.len() ==> action_loads(files, depth, acts[i], #[trigger] subs[i]);
    assert(es.len() == 1);
    assert(is_expansion_of(es[0], l));
    let (f, m) = choose|f: Seq<char>, m: Seq<char>|
        {
            &&& crate::cmd_functions::is_fresh_first_name(f)
            &&& crate::cmd_functions::is_fresh_email(m)
            &&& es[0] == crate::text::replace_all(
                crate::text::replace_all(l, crate::cmd_functions::first_name_token(), f),
                crate::cmd_functions::email_token(),
                m,
            )
        };
    assert forall|j: int| 0 <= j < l.len() implies l[j] != '@' by {
        if j >= 8 {
            assert(l[j] == p[j - 8]);
        }
    }
    crate::text::lemma_absent_head(l, crate::cmd_functions::first_name_token());
    crate::text::lemma_absent_head(l, crate::cmd_functions::email_token());
    crate::text::lemma_replace_absent(l, crate::cmd_functions::first_name_token(), f);
    crate::text::lemma_replace_absent(l, crate::cmd_functions::email_token(), m);
    assert(es[0] == l);
    assert(is_first_delim(l, seq![' '], 7)) by {
        assert(l[7] == ' ');
        assert(forall|j: int| 0 <= j < 7 ==> l[j] != ' ');
        assert(seq![' '][0] == ' ');
        assert(seq![' '].contains(l[7]));
        assert forall|j: int| 0 <= j < 7 implies !seq![' '].contains(l[j]) by {
            assert(forall|w: int| 0 <= w < seq![' '].len() ==> seq![' '][w] == ' ');
        }
    }
    let w = choose|w: int| is_first_delim(l, seq![' '], w);
    lemma_first_delim_unique(l, seq![' '], w, 7);
    assert(l.take(7) =~= "execute"@);
    assert(l.skip(8) =~= p);
    assert(es.drop_last() =~= Seq::<Seq<char>>::empty());
    assert(lines_outcome(es, acts, fails));
    if fails.len() > 0 && line_outcome(es.last(), Err(fails.last().error)) && fails.last().line@
        == es.last() && lines_outcome(es.drop_last(), acts, fails.drop_last()) {
        assert(false);
    }
    assert(acts.len() > 0 && line_outcome(es.last(), Ok(acts.last())));
    assert(lines_outcome(es.drop_last(), acts.drop_last(), fails));
    assert(acts.drop_last().len() == 0 && fails.len() == 0);
    assert(acts.len() == 1);
    let a = acts.last();
    assert(a matches Action::RunScript(q) && q@ == p);
    if subs.len() == 0 {
        assert(combined(subs) == Ok::<Seq<Action>, LoadError>(Seq::empty()));
        assert(res is Ok);
        assert(subs.len() == acts.len());
        assert(false);
    }
    assert(subs.len() == 1);
    assert(action_loads(files, depth, acts[0], subs[0]));
    assert(subs.drop_last() =~= Seq::<Result<Seq<Action>, LoadError>>::empty());
    assert(combined(Seq::<Result<Seq<Action>, LoadError>>::empty()) == Ok::<
        Seq<Action>,
        LoadError,
    >(Seq::empty()));
    match subs[0] {
        Err(e) => {
            assert(subs.last() == subs[0]);
            assert(combined(subs) == Err::<Seq<Action>, LoadError>(e));
            assert(res == Err::<Seq<Action>, LoadError>(e));
            assert(loads_to(files, p, (depth - 1) as nat, res));
        },
        Ok(s) => {
            assert(subs.last() == subs[0]);
            assert(combined(subs) == Ok::<Seq<Action>, LoadError>(Seq::empty() + s));
            assert(Seq::<Action>::empty() + s =~= s);
            assert(res == Ok::<Seq<Action>, LoadError>(s));
            assert(loads_to(files, p, (depth - 1) as nat, res));
        },
    }
}

} // verus!
