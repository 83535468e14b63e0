//! Command templates: a program name and its arguments, one of which may
//! stand for the path of the file to play.

use crate::text::{
    is_blank, is_space, is_word, lemma_no_pieces_iff_void, lemma_pieces_are_pieces,
    lemma_pieces_concat, lemma_pieces_piece_first, split_whitespace, tokens, views, Separator,
};
use vstd::prelude::*;
use vstd::string::*;

verus! {

/// One argument of a command template.
#[derive(Debug)]
pub enum ArgType {
    /// A literal argument, passed on as it is.
    Custom(String),
    /// The place where the path of the file goes.
    SongPath,
}

/// A command template: the program to run and its arguments.
#[derive(Debug)]
pub struct Command {
    pub name: String,
    pub args: Vec<ArgType>,
}

/// What an argument is, as mathematics.
pub enum ArgModel {
    Custom(Seq<char>),
    SongPath,
}

/// What a command template is, as mathematics.
pub struct CommandModel {
    pub name: Seq<char>,
    pub args: Seq<ArgModel>,
}

impl View for ArgType {
    type V = ArgModel;

    open spec fn view(&self) -> ArgModel {
        match self {
            ArgType::Custom(s) => ArgModel::Custom(s@),
            ArgType::SongPath => ArgModel::SongPath,
        }
    }
}

/// The models of a sequence of arguments.
pub open spec fn arg_views(v: Seq<ArgType>) -> Seq<ArgModel> {
    Seq::new(v.len(), |i: int| v[i]@)
}

impl View for Command {
    type V = CommandModel;

    open spec fn view(&self) -> CommandModel {
        CommandModel { name: self.name@, args: arg_views(self.args@) }
    }
}

/// The text that stands for the path of the file: an opening and a closing brace.
pub open spec fn placeholder() -> Seq<char> {
    seq!['{', '}']
}

/// The argument that a token of the input denotes.
pub open spec fn arg_of_token(t: Seq<char>) -> ArgModel {
    if t == placeholder() {
        ArgModel::SongPath
    } else {
        ArgModel::Custom(t)
    }
}

/// The text that an argument is written as.
pub open spec fn arg_text(a: ArgModel) -> Seq<char> {
    match a {
        ArgModel::Custom(s) => s,
        ArgModel::SongPath => placeholder(),
    }
}

/// The command that a line of text denotes: its first word is the name, each
/// further word an argument. A line without words denotes none.
pub open spec fn parse_spec(s: Seq<char>) -> Option<CommandModel> {
    let t = tokens(s);
    if t.len() == 0 {
        None
    } else {
        Some(
            CommandModel {
                name: t[0],
                args: Seq::new((t.len() - 1) as nat, |i: int| arg_of_token(t[i + 1])),
            },
        )
    }
}

/// The arguments written one after the other, each followed by one space.
pub open spec fn args_text(args: Seq<ArgModel>) -> Seq<char>
    decreases args.len(),
{
    if args.len() == 0 {
        Seq::empty()
    } else {
        args_text(args.drop_last()) + arg_text(args.last()) + seq![' ']
    }
}

/// The line of text that a command is written as: the name, a space, and the
/// arguments, each followed by a space.
pub open spec fn serialize_spec(c: CommandModel) -> Seq<char> {
    c.name + seq![' '] + args_text(c.args)
}

/// An argument that reads back as itself: the placeholder, or a literal that
/// is one word and is not the placeholder's text.
pub open spec fn arg_reads_back(a: ArgModel) -> bool {
    match a {
        ArgModel::Custom(s) => is_word(s) && s != placeholder(),
        ArgModel::SongPath => true,
    }
}

/// A command that reads back as itself: its name is one word and each of its
/// arguments reads back as itself.
pub open spec fn reads_back(c: CommandModel) -> bool {
    &&& is_word(c.name)
    &&& forall|i: int| 0 <= i < c.args.len() ==> arg_reads_back(#[trigger] c.args[i])
}

/// The texts of the arguments, in order.
pub open spec fn arg_texts(args: Seq<ArgModel>) -> Seq<Seq<char>> {
    Seq::new(args.len(), |i: int| arg_text(args[i]))
}

/// The text of an argument that reads back as itself is one word.
pub proof fn lemma_arg_text_is_word(a: ArgModel)
    requires
        arg_reads_back(a),
    ensures
        is_word(arg_text(a)),
        arg_of_token(arg_text(a)) == a,
{
    assert(!is_space('{') && !is_space('}'));
}

/// The tokens of the written arguments are the texts of the arguments.
pub proof fn lemma_tokens_of_args_text(args: Seq<ArgModel>)
    requires
        forall|i: int| 0 <= i < args.len() ==> arg_reads_back(#[trigger] args[i]),
    ensures
        tokens(args_text(args)) == arg_texts(args),
        args_text(args).len() == 0 || is_space(args_text(args).last()),
    decreases args.len(),
{
    if args.len() == 0 {
        assert(tokens(args_text(args)) =~= arg_texts(args));
    } else {
        let init = args.drop_last();
        let w = arg_text(args.last());
        assert forall|i: int| 0 <= i < init.len() implies arg_reads_back(#[trigger] init[i]) by {
            assert(init[i] == args[i]);
        }
        lemma_tokens_of_args_text(init);
        lemma_arg_text_is_word(args.last());
        let tail = w + seq![' '] + Seq::<char>::empty();
        assert(tail =~= w + seq![' ']);
        lemma_pieces_piece_first(w, ' ', Seq::empty(), Separator::Whitespace);
        assert(tokens(Seq::<char>::empty()) =~= Seq::<Seq<char>>::empty());
        assert(tokens(tail) =~= seq![w]);
        assert(args_text(args) =~= args_text(init) + tail);
        lemma_pieces_concat(args_text(init), tail, Separator::Whitespace);
        assert(arg_texts(init) + seq![w] =~= arg_texts(args));
        assert(args_text(args).last() == ' ');
    }
}

/// Writing a command and reading the line back gives the command again:
/// the same name and the same arguments in the same order, provided that the
/// name is one word and that each literal argument is one word other than
/// the placeholder's text.
pub proof fn lemma_parse_serialize_round_trip(c: CommandModel)
    requires
        reads_back(c),
    ensures
        parse_spec(serialize_spec(c)) == Some(c),
{
    let line = serialize_spec(c);
    lemma_tokens_of_args_text(c.args);
    lemma_pieces_piece_first(c.name, ' ', args_text(c.args), Separator::Whitespace);
    let t = tokens(line);
    assert(t =~= seq![c.name] + arg_texts(c.args));
    let parsed = parse_spec(line)->Some_0;
    assert(parsed.name == c.name);
    assert forall|i: int| 0 <= i < c.args.len() implies parsed.args[i] == c.args[i] by {
        assert(t[i + 1] == arg_text(c.args[i]));
        lemma_arg_text_is_word(c.args[i]);
    }
    assert(parsed.args =~= c.args);
}

/// Every command that a line of text denotes reads back as itself.
pub proof fn lemma_parsed_reads_back(s: Seq<char>)
    requires
        parse_spec(s) is Some,
    ensures
        reads_back(parse_spec(s)->Some_0),
{
    lemma_pieces_are_pieces(s, Separator::Whitespace);
    let t = tokens(s);
    let c = parse_spec(s)->Some_0;
    assert(is_word(t[0]));
    assert forall|i: int| 0 <= i < c.args.len() implies arg_reads_back(#[trigger] c.args[i]) by {
        assert(is_word(t[i + 1]));
    }
}

/// Reading a line, writing the command and reading it again gives the same
/// command as the first reading, whatever the spacing of the line was.
pub proof fn lemma_reparse_is_stable(s: Seq<char>)
    requires
        parse_spec(s) is Some,
    ensures
        parse_spec(serialize_spec(parse_spec(s)->Some_0)) == parse_spec(s),
{
    lemma_parsed_reads_back(s);
    lemma_parse_serialize_round_trip(parse_spec(s)->Some_0);
}

/// A line denotes no command exactly when it is empty or all whitespace.
pub proof fn lemma_parse_fails_iff_blank(s: Seq<char>)
    ensures
        parse_spec(s) is None <==> is_blank(s),
{
    lemma_no_pieces_iff_void(s, Separator::Whitespace);
}

/// Why a line of text denotes no command.
#[derive(Debug)]
pub struct CommandParseError {
    kind: CommandParseErrorKind,
}

#[derive(Debug)]
enum CommandParseErrorKind {
    /// The input ended where something was still expected.
    ExpectedButEnd { what: &'static str },
}

/// The message of the error that reports `what` as missing.
pub open spec fn parse_error_text(what: Seq<char>) -> Seq<char> {
    "parse error: Expected "@ + what + ", but reached end."@
}

impl CommandParseError {
    /// What the parser still expected when the input ended.
    pub closed spec fn expected(&self) -> Seq<char> {
        match self.kind {
            CommandParseErrorKind::ExpectedButEnd { what } => what@,
        }
    }

    /// The message to show to the user.
    pub fn to_string(&self) -> (msg: String)
        ensures
            msg@ == parse_error_text(self.expected()),
    {
        match self.kind {
            CommandParseErrorKind::ExpectedButEnd { what } => {
                let mut msg = String::from_str("parse error: Expected ");
                msg.append(what);
                msg.append(", but reached end.");
                msg
            },
        }
    }
}

/// Whether `t` is the text that stands for the path of the file.
fn is_placeholder(t: &str) -> (b: bool)
    ensures
        b == (t@ == placeholder()),
{
    if t.unicode_len() != 2 {
        false
    } else {
        let found = t.get_char(0) == '{' && t.get_char(1) == '}';
        assert(found ==> t@ =~= placeholder());
        found
    }
}

impl Command {
    /// Reads a command from a line of text. The line is split at whitespace;
    /// the first word is the program's name, the word `{}` the place of the
    /// path, and every other word a literal argument. Fails exactly when the
    /// line holds no word.
    pub fn from_str(src: &str) -> (r: Result<Self, CommandParseError>)
        ensures
            match parse_spec(src@) {
                Some(c) => r is Ok && r->Ok_0@ == c,
                None => r is Err && r->Err_0.expected() == "command"@,
            },
    {
        let toks = split_whitespace(src);
        if toks.len() == 0 {
            return Err(
                CommandParseError { kind: CommandParseErrorKind::ExpectedButEnd { what: "command" } },
            );
        }
        let name = toks[0].clone();
        let mut args: Vec<ArgType> = Vec::new();
        let mut i: usize = 1;
        while i < toks.len()
            invariant
                1 <= i <= toks.len(),
                views(toks@) == tokens(src@),
                args.len() == i - 1,
                forall|k: int|
                    0 <= k < args.len() ==> (#[trigger] args[k])@ == arg_of_token(toks[k + 1]@),
            decreases toks.len() - i,
        {
            let tok = &toks[i];
            if is_placeholder(tok.as_str()) {
                args.push(ArgType::SongPath);
            } else {
                args.push(ArgType::Custom(tok.clone()));
            }
            i += 1;
        }
        let cmd = Command { name, args };
        proof {
            let t = tokens(src@);
            assert(t.len() == toks.len());
            assert(t[0] == toks[0]@);
            assert forall|k: int| 0 <= k < cmd.args.len() implies arg_views(cmd.args@)[k]
                == arg_of_token(t[k + 1]) by {
                assert(t[k + 1] == toks[k + 1]@);
            }
            assert(cmd@.args =~= parse_spec(src@)->Some_0.args);
        }
        Ok(cmd)
    }
}

/// The error type of `std::fmt`, which `Command::to_string` has in its
/// signature and never returns.
#[verifier::external_type_specification]
#[verifier::external_body]
pub struct ExFmtError(std::fmt::Error);

impl ArgType {
    /// The text that this argument is written as.
    pub fn to_string(&self) -> (r: String)
        ensures
            r@ == arg_text(self@),
    {
        let mut buf = String::new();
        self.write_to(&mut buf);
        assert(buf@ =~= arg_text(self@));
        buf
    }

    /// Appends the text of this argument to `buf`.
    fn write_to(&self, buf: &mut String)
        ensures
            final(buf)@ == old(buf)@ + arg_text(self@),
    {
        match self {
            ArgType::Custom(s) => {
                buf.append(s.as_str());
            },
            ArgType::SongPath => {
                proof {
                    reveal_strlit("{}");
                }
                assert("{}"@ =~= placeholder());
                buf.append("{}");
            },
        }
    }
}

impl Command {
    /// Writes the command as one line of text: the name, a space, and each
    /// argument followed by a space. Always succeeds.
    pub fn to_string(&self) -> (r: Result<String, std::fmt::Error>)
        ensures
            r is Ok,
            r->Ok_0@ == serialize_spec(self@),
    {
        proof {
            reveal_strlit(" ");
        }
        assert(" "@ =~= seq![' ']);
        let mut buf = String::new();
        buf.append(self.name.as_str());
        buf.append(" ");
        let mut i: usize = 0;
        assert(arg_views(self.args@).take(0) =~= Seq::<ArgModel>::empty());
        assert(buf@ =~= self.name@ + seq![' '] + args_text(arg_views(self.args@).take(0)));
        while i < self.args.len()
            invariant
                i <= self.args.len(),
                " "@ == seq![' '],
                buf@ == self.name@ + seq![' '] + args_text(arg_views(self.args@).take(i as int)),
            decreases self.args.len() - i,
        {
            self.args[i].write_to(&mut buf);
            buf.append(" ");
            proof {
                let all = arg_views(self.args@);
                let next = all.take(i + 1);
                assert(next.drop_last() =~= all.take(i as int));
                assert(next.last() == self.args[i as int]@);
                assert(buf@ =~= self.name@ + seq![' '] + args_text(next));
            }
            i += 1;
        }
        assert(arg_views(self.args@).take(i as int) =~= arg_views(self.args@));
        Ok(buf)
    }
}

/// The argument `a` as it is handed to the program when the file at `path`
/// is played: a literal as it is, the placeholder as the path.
pub open spec fn filled_arg(a: ArgModel, path: Seq<char>) -> Seq<char> {
    match a {
        ArgModel::Custom(s) => s,
        ArgModel::SongPath => path,
    }
}

/// The arguments as they are handed to the program when the file at `path`
/// is played.
pub open spec fn filled_args(args: Seq<ArgModel>, path: Seq<char>) -> Seq<Seq<char>> {
    Seq::new(args.len(), |i: int| filled_arg(args[i], path))
}

impl Command {
    /// The arguments for playing the file at `path`: those of the template,
    /// in their order, with the path in each place that stands for it.
    pub fn materialize(&self, path: &str) -> (r: Vec<String>)
        ensures
            views(r@) == filled_args(self@.args, path@),
    {
        let mut out: Vec<String> = Vec::new();
        let mut i: usize = 0;
        while i < self.args.len()
            invariant
                i <= self.args.len(),
                out.len() == i,
                forall|k: int| 0 <= k < i ==> (#[trigger] out[k])@ == filled_arg(self.args[k]@, path@),
            decreases self.args.len() - i,
        {
            let filled = match &self.args[i] {
                ArgType::Custom(s) => s.clone(),
                ArgType::SongPath => String::from_str(path),
            };
            out.push(filled);
            i += 1;
        }
        assert(views(out@) =~= filled_args(self@.args, path@));
        out
    }
}

impl Clone for ArgType {
    fn clone(&self) -> (r: Self)
        ensures
            r@ == self@,
    {
        match self {
            ArgType::Custom(s) => ArgType::Custom(s.clone()),
            ArgType::SongPath => ArgType::SongPath,
        }
    }
}

impl Clone for Command {
    fn clone(&self) -> (r: Self)
        ensures
            r@ == self@,
    {
        let mut args: Vec<ArgType> = Vec::new();
        let mut i: usize = 0;
        while i < self.args.len()
            invariant
                i <= self.args.len(),
                args.len() == i,
                forall|k: int| 0 <= k < i ==> (#[trigger] args[k])@ == self.args[k]@,
            decreases self.args.len() - i,
        {
            args.push(self.args[i].clone());
            i += 1;
        }
        let r = Command { name: self.name.clone(), args };
        assert(r@.args =~= self@.args);
        r
    }
}

impl Default for Command {
    /// The empty command: no name and no arguments.
    fn default() -> (r: Self)
        ensures
            r@.name.len() == 0,
            r@.args.len() == 0,
    {
        Command { name: String::new(), args: Vec::new() }
    }
}

} // verus!
