//! The build recipe of one image: where the image goes, what is mounted
//! while it is built, and the commands that build it, in order.
//!
//! Every recipe type has a canonical byte encoding. The encoding covers the
//! whole content of a value and nothing else, so it is what gets hashed when
//! a command is stamped.

use crate::text::same_text;
use vstd::bytes::*;
use vstd::prelude::*;
use vstd::utf8::*;

verus! {

/// The recipe of one image.
#[derive(Clone, Debug, PartialEq, Eq)]
pub struct ImageRecipe {
    pub image: Image,
    pub commands: Vec<Command>,
    pub mounts: Vec<Mount>,
}

/// The image that a recipe builds.
#[derive(Clone, Debug, PartialEq, Eq)]
pub struct Image {
    /// The directory that receives the image.
    pub dest: String,
}

/// Something mounted while the image is built.
#[derive(Clone, Debug, PartialEq, Eq)]
pub enum Mount {
    Bind(MountBind),
}

/// A bind mount of `src`, known to the commands as `name`.
#[derive(Clone, Debug, PartialEq, Eq)]
pub struct MountBind {
    pub name: String,
    pub src: String,
}

/// One step of a recipe.
#[derive(Clone, Debug, PartialEq, Eq)]
pub enum Command {
    Copy(CommandCopy),
    Exec(CommandExec),
}

/// Installs the file `src` at `dest` inside the image, with the permission
/// bits `mode` where given.
#[derive(Clone, Debug, PartialEq, Eq)]
pub struct CommandCopy {
    pub src: String,
    pub dest: String,
    pub mode: Option<u32>,
}

/// Runs one or more processes, one after the other.
#[derive(Clone, Debug, PartialEq, Eq)]
pub struct CommandExec {
    pub kind: CommandExecType,
    pub cwd: Option<String>,
    pub commands: Vec<CommandArgs>,
}

/// What one process of an exec step runs.
#[derive(Clone, Debug, PartialEq, Eq)]
pub enum CommandArgs {
    /// A script, handed to `sh`.
    Shell(String),
    /// A program and its arguments.
    Exec { process: String, args: Vec<String> },
}

/// Where the processes of an exec step run.
#[derive(Clone, Debug, PartialEq, Eq)]
pub enum CommandExecType {
    /// Inside the image under construction.
    Image,
    /// On the building host.
    Host,
    /// Inside the container bundle at `root`.
    Ocf { root: String },
}

/// The characters of each of the strings `items`.
pub open spec fn text_views(items: Seq<String>) -> Seq<Seq<char>> {
    Seq::new(items.len(), |i: int| items[i]@)
}

/// What a process holds.
pub ghost enum CommandArgsView {
    Shell { script: Seq<char> },
    Exec { process: Seq<char>, args: Seq<Seq<char>> },
}

impl View for CommandArgs {
    type V = CommandArgsView;

    open spec fn view(&self) -> CommandArgsView {
        match self {
            CommandArgs::Shell(script) => CommandArgsView::Shell { script: script@ },
            CommandArgs::Exec { process, args } => CommandArgsView::Exec {
                process: process@,
                args: text_views(args@),
            },
        }
    }
}

/// What the processes `items` hold.
pub open spec fn args_views(items: Seq<CommandArgs>) -> Seq<CommandArgsView> {
    Seq::new(items.len(), |i: int| items[i]@)
}

/// What the place of an exec step holds.
pub ghost enum CommandExecTypeView {
    Image,
    Host,
    Ocf { root: Seq<char> },
}

impl View for CommandExecType {
    type V = CommandExecTypeView;

    open spec fn view(&self) -> CommandExecTypeView {
        match self {
            CommandExecType::Image => CommandExecTypeView::Image,
            CommandExecType::Host => CommandExecTypeView::Host,
            CommandExecType::Ocf { root } => CommandExecTypeView::Ocf { root: root@ },
        }
    }
}

/// What a copy step holds.
pub ghost struct CommandCopyView {
    pub src: Seq<char>,
    pub dest: Seq<char>,
    pub mode: Option<u32>,
}

impl View for CommandCopy {
    type V = CommandCopyView;

    open spec fn view(&self) -> CommandCopyView {
        CommandCopyView { src: self.src@, dest: self.dest@, mode: self.mode }
    }
}

/// What an exec step holds.
pub ghost struct CommandExecView {
    pub kind: CommandExecTypeView,
    pub cwd: Option<Seq<char>>,
    pub commands: Seq<CommandArgsView>,
}

impl View for CommandExec {
    type V = CommandExecView;

    open spec fn view(&self) -> CommandExecView {
        CommandExecView {
            kind: self.kind@,
            cwd: match self.cwd {
                Some(dir) => Some(dir@),
                None => None,
            },
            commands: args_views(self.commands@),
        }
    }
}

/// What a step holds.
pub ghost enum CommandView {
    Copy(CommandCopyView),
    Exec(CommandExecView),
}

impl View for Command {
    type V = CommandView;

    open spec fn view(&self) -> CommandView {
        match self {
            Command::Copy(copy) => CommandView::Copy(copy@),
            Command::Exec(exec) => CommandView::Exec(exec@),
        }
    }
}

/// The encoding of a count or a length: eight bytes, least significant first.
pub open spec fn encode_len(n: nat) -> Seq<u8> {
    spec_u64_to_le_bytes(n as u64)
}

/// The encoding of a string: the length of its UTF-8 form, then that form.
pub open spec fn encode_str(s: Seq<char>) -> Seq<u8> {
    encode_len(encode_utf8(s).len()) + encode_utf8(s)
}

/// The encodings of the strings of `items`, one after the other.
pub open spec fn encode_strs(items: Seq<String>) -> Seq<u8>
    decreases items.len(),
{
    if items.len() == 0 {
        Seq::empty()
    } else {
        encode_strs(items.drop_last()) + encode_str(items.last()@)
    }
}

/// The encoding of an optional string: a zero byte, or a one byte and the
/// string.
pub open spec fn encode_opt_str(s: Option<String>) -> Seq<u8> {
    match s {
        None => seq![0u8],
        Some(s) => seq![1u8] + encode_str(s@),
    }
}

/// The encoding of optional permission bits: a zero byte, or a one byte and
/// the bits as four bytes, least significant first.
pub open spec fn encode_opt_mode(mode: Option<u32>) -> Seq<u8> {
    match mode {
        None => seq![0u8],
        Some(m) => seq![1u8] + spec_u32_to_le_bytes(m),
    }
}

/// The encodings of the processes of `items`, one after the other.
pub open spec fn encode_args_list(items: Seq<CommandArgs>) -> Seq<u8>
    decreases items.len(),
{
    if items.len() == 0 {
        Seq::empty()
    } else {
        encode_args_list(items.drop_last()) + items.last().encoding()
    }
}

/// Whether the length of the UTF-8 form of `s` can be written in 64 bits.
pub open spec fn text_fits(s: Seq<char>) -> bool {
    encode_utf8(s).len() <= u64::MAX
}

/// Whether the strings `items` and their number fit.
pub open spec fn texts_fit(items: Seq<String>) -> bool {
    &&& items.len() <= u64::MAX
    &&& forall|i: int| 0 <= i < items.len() ==> text_fits((#[trigger] items[i])@)
}

/// Whether every length in the process `args` fits.
pub open spec fn args_fit(args: CommandArgs) -> bool {
    match args {
        CommandArgs::Shell(script) => text_fits(script@),
        CommandArgs::Exec { process, args } => text_fits(process@) && texts_fit(args@),
    }
}

/// Whether the processes `items` and their number fit.
pub open spec fn args_list_fits(items: Seq<CommandArgs>) -> bool {
    &&& items.len() <= u64::MAX
    &&& forall|i: int| 0 <= i < items.len() ==> args_fit(#[trigger] items[i])
}

/// Whether every length in the step `command` can be written in 64 bits, as
/// the encoding does. This holds of every step that fits in memory.
pub open spec fn command_fits(command: Command) -> bool {
    match command {
        Command::Copy(copy) => text_fits(copy.src@) && text_fits(copy.dest@),
        Command::Exec(exec) => {
            &&& match exec.kind {
                CommandExecType::Ocf { root } => text_fits(root@),
                _ => true,
            }
            &&& match exec.cwd {
                Some(dir) => text_fits(dir@),
                None => true,
            }
            &&& args_list_fits(exec.commands@)
        },
    }
}

/// Appends to `out` the encoding of the length `n`.
fn push_len(out: &mut Vec<u8>, n: usize)
    ensures
        final(out)@ == old(out)@ + encode_len(n as nat),
{
    let mut bytes = u64_to_le_bytes(n as u64);
    out.append(&mut bytes);
}

/// Appends to `out` the encoding of the string `s`.
fn push_str(out: &mut Vec<u8>, s: &str)
    ensures
        final(out)@ == old(out)@ + encode_str(s@),
        text_fits(s@),
{
    let mut bytes = s.as_bytes_vec();
    push_len(out, bytes.len());
    out.append(&mut bytes);
    assert(out@ =~= old(out)@ + encode_str(s@));
}

impl CommandExecType {
    /// The canonical bytes of this value: a byte that tells the kind, then
    /// the root where there is one.
    pub open spec fn encoding(&self) -> Seq<u8> {
        match self {
            CommandExecType::Image => seq![0u8],
            CommandExecType::Host => seq![1u8],
            CommandExecType::Ocf { root } => seq![2u8] + encode_str(root@),
        }
    }

    /// Appends the canonical bytes of this value to `out`.
    pub fn encode(&self, out: &mut Vec<u8>)
        ensures
            final(out)@ == old(out)@ + self.encoding(),
            self matches CommandExecType::Ocf { root } ==> text_fits(root@),
    {
        match self {
            CommandExecType::Image => {
                out.push(0u8);
            },
            CommandExecType::Host => {
                out.push(1u8);
            },
            CommandExecType::Ocf { root } => {
                out.push(2u8);
                push_str(out, root.as_str());
            },
        }
        assert(out@ =~= old(out)@ + self.encoding());
    }
}

impl CommandArgs {
    /// The canonical bytes of this value: a byte that tells the form, then
    /// the script, or the program, the number of arguments and the arguments.
    pub open spec fn encoding(&self) -> Seq<u8> {
        match self {
            CommandArgs::Shell(script) => seq![0u8] + encode_str(script@),
            CommandArgs::Exec { process, args } => seq![1u8] + encode_str(process@) + encode_len(
                args@.len(),
            ) + encode_strs(args@),
        }
    }

    /// Appends the canonical bytes of this value to `out`.
    pub fn encode(&self, out: &mut Vec<u8>)
        ensures
            final(out)@ == old(out)@ + self.encoding(),
            args_fit(*self),
    {
        match self {
            CommandArgs::Shell(script) => {
                out.push(0u8);
                push_str(out, script.as_str());
            },
            CommandArgs::Exec { process, args } => {
                out.push(1u8);
                push_str(out, process.as_str());
                push_len(out, args.len());
                let ghost head = out@;
                let mut i: usize = 0;
                while i < args.len()
                    invariant
                        i <= args.len(),
                        out@ == head + encode_strs(args@.take(i as int)),
                        forall|k: int| 0 <= k < i ==> text_fits((#[trigger] args@[k])@),
                    decreases args.len() - i,
                {
                    push_str(out, args[i].as_str());
                    proof {
                        let next = args@.take(i + 1);
                        assert(next.drop_last() =~= args@.take(i as int));
                        assert(next.last() == args@[i as int]);
                        assert(out@ =~= head + encode_strs(next));
                    }
                    i = i + 1;
                }
                assert(args@.take(args.len() as int) =~= args@);
            },
        }
        assert(out@ =~= old(out)@ + self.encoding());
    }
}

impl CommandCopy {
    /// The canonical bytes of this value: source, destination, mode.
    pub open spec fn encoding(&self) -> Seq<u8> {
        encode_str(self.src@) + encode_str(self.dest@) + encode_opt_mode(self.mode)
    }

    /// Appends the canonical bytes of this value to `out`.
    pub fn encode(&self, out: &mut Vec<u8>)
        ensures
            final(out)@ == old(out)@ + self.encoding(),
            text_fits(self.src@),
            text_fits(self.dest@),
    {
        push_str(out, self.src.as_str());
        push_str(out, self.dest.as_str());
        match self.mode {
            None => {
                out.push(0u8);
            },
            Some(m) => {
                out.push(1u8);
                let mut bytes = u32_to_le_bytes(m);
                out.append(&mut bytes);
            },
        }
        assert(out@ =~= old(out)@ + self.encoding());
    }
}

impl CommandExec {
    /// The canonical bytes of this value: kind, working directory, the
    /// number of processes and the processes.
    pub open spec fn encoding(&self) -> Seq<u8> {
        self.kind.encoding() + encode_opt_str(self.cwd) + encode_len(self.commands@.len())
            + encode_args_list(self.commands@)
    }

    /// Appends the canonical bytes of this value to `out`.
    pub fn encode(&self, out: &mut Vec<u8>)
        ensures
            final(out)@ == old(out)@ + self.encoding(),
            command_fits(Command::Exec(*self)),
    {
        self.kind.encode(out);
        match &self.cwd {
            None => {
                out.push(0u8);
            },
            Some(dir) => {
                out.push(1u8);
                push_str(out, dir.as_str());
            },
        }
        push_len(out, self.commands.len());
        let ghost head = out@;
        assert(head =~= old(out)@ + self.kind.encoding() + encode_opt_str(self.cwd) + encode_len(
            self.commands@.len(),
        ));
        let mut i: usize = 0;
        while i < self.commands.len()
            invariant
                i <= self.commands.len(),
                out@ == head + encode_args_list(self.commands@.take(i as int)),
                forall|k: int| 0 <= k < i ==> args_fit(#[trigger] self.commands@[k]),
            decreases self.commands.len() - i,
        {
            self.commands[i].encode(out);
            proof {
                let next = self.commands@.take(i + 1);
                assert(next.drop_last() =~= self.commands@.take(i as int));
                assert(next.last() == self.commands@[i as int]);
                assert(out@ =~= head + encode_args_list(next));
            }
            i = i + 1;
        }
        assert(self.commands@.take(self.commands.len() as int) =~= self.commands@);
        assert(out@ =~= old(out)@ + self.encoding());
    }
}

impl Command {
    /// The canonical bytes of this step: a byte that tells copy from exec,
    /// then the bytes of the step.
    pub open spec fn encoding(&self) -> Seq<u8> {
        match self {
            Command::Copy(copy) => seq![0u8] + copy.encoding(),
            Command::Exec(exec) => seq![1u8] + exec.encoding(),
        }
    }

    /// Appends the canonical bytes of this step to `out`. A step that is
    /// there to be encoded fits.
    pub fn encode(&self, out: &mut Vec<u8>)
        ensures
            final(out)@ == old(out)@ + self.encoding(),
            command_fits(*self),
    {
        match self {
            Command::Copy(copy) => {
                out.push(0u8);
                copy.encode(out);
            },
            Command::Exec(exec) => {
                out.push(1u8);
                exec.encode(out);
            },
        }
        assert(out@ =~= old(out)@ + self.encoding());
    }
}

/// Why the description of a step is no step.
#[derive(Copy, Clone, Debug, PartialEq, Eq, Structural)]
pub enum SchemaError {
    /// The step does not say of which type it is.
    MissingType,
    /// The type of the step is none of `copy`, `host`, `image` and `ocf`.
    UnknownCommandType,
    /// A step of type `ocf` does not name the root of its bundle.
    OcfRequiresRoot,
    /// An exec step names no process.
    MissingCommand,
    /// The argument vector of a process is empty.
    NoArguments,
    /// The mode of a copy step is no octal number.
    ModeNotOctal,
}

/// What is said of each fault.
pub open spec fn schema_message(error: SchemaError) -> Seq<char> {
    match error {
        SchemaError::MissingType => "expected type field"@,
        SchemaError::UnknownCommandType => "unknown command type"@,
        SchemaError::OcfRequiresRoot => "ocf requires root"@,
        SchemaError::MissingCommand => "missing field `command`"@,
        SchemaError::NoArguments => "at least one argument is required"@,
        SchemaError::ModeNotOctal => "mode must be octal"@,
    }
}

impl SchemaError {
    /// What is said of the fault.
    pub fn message(&self) -> (text: &'static str)
        ensures
            text@ == schema_message(*self),
    {
        match self {
            SchemaError::MissingType => "expected type field",
            SchemaError::UnknownCommandType => "unknown command type",
            SchemaError::OcfRequiresRoot => "ocf requires root",
            SchemaError::MissingCommand => "missing field `command`",
            SchemaError::NoArguments => "at least one argument is required",
            SchemaError::ModeNotOctal => "mode must be octal",
        }
    }
}

/// The type of a step, as a recipe names it.
#[derive(Copy, Clone, Debug, PartialEq, Eq, Structural)]
pub enum CommandType {
    Copy,
    Host,
    Image,
    Ocf,
}

/// The type that a recipe means by `name`, if any.
pub open spec fn command_type_of(name: Seq<char>) -> Option<CommandType> {
    if name == "copy"@ {
        Some(CommandType::Copy)
    } else if name == "host"@ {
        Some(CommandType::Host)
    } else if name == "image"@ {
        Some(CommandType::Image)
    } else if name == "ocf"@ {
        Some(CommandType::Ocf)
    } else {
        None
    }
}

impl CommandType {
    /// Reads the type of a step. `name` is what the step gives as its type,
    /// if it gives one.
    pub fn from_name(name: Option<&str>) -> (r: Result<CommandType, SchemaError>)
        ensures
            r == (match name {
                None => Err::<CommandType, SchemaError>(SchemaError::MissingType),
                Some(name) => match command_type_of(name@) {
                    Some(t) => Ok(t),
                    None => Err(SchemaError::UnknownCommandType),
                },
            }),
    {
        match name {
            None => Err(SchemaError::MissingType),
            Some(name) => {
                if same_text(name, "copy") {
                    Ok(CommandType::Copy)
                } else if same_text(name, "host") {
                    Ok(CommandType::Host)
                } else if same_text(name, "image") {
                    Ok(CommandType::Image)
                } else if same_text(name, "ocf") {
                    Ok(CommandType::Ocf)
                } else {
                    Err(SchemaError::UnknownCommandType)
                }
            },
        }
    }
}

/// Whether `c` is one of the digits `0` to `7`.
pub open spec fn is_octal_digit(c: char) -> bool {
    '0' <= c && c <= '7'
}

/// The number that the octal digits `digits` stand for.
pub open spec fn octal_value(digits: Seq<char>) -> nat
    decreases digits.len(),
{
    if digits.len() == 0 {
        0
    } else {
        octal_value(digits.drop_last()) * 8 + (digits.last() as nat - '0' as nat) as nat
    }
}

/// `text` without the plus sign that may stand in front of a number.
pub open spec fn without_sign(text: Seq<char>) -> Seq<char> {
    if text.len() > 0 && text[0] == '+' {
        text.drop_first()
    } else {
        text
    }
}

/// The mode that `text` stands for: `text` is one or more octal digits, with
/// or without a plus sign in front, and their value fits in 32 bits.
pub open spec fn octal_mode(text: Seq<char>) -> Option<u32> {
    let digits = without_sign(text);
    if digits.len() > 0 && (forall|i: int| 0 <= i < digits.len() ==> is_octal_digit(#[trigger] digits[i]))
        && octal_value(digits) <= u32::MAX {
        Some(octal_value(digits) as u32)
    } else {
        None
    }
}

/// A number in octal does not get smaller when digits are added behind it.
pub proof fn lemma_octal_value_grows(digits: Seq<char>, n: int)
    requires
        0 <= n <= digits.len(),
        forall|i: int| 0 <= i < digits.len() ==> is_octal_digit(#[trigger] digits[i]),
    ensures
        octal_value(digits.take(n)) <= octal_value(digits),
    decreases digits.len() - n,
{
    if n == digits.len() {
        assert(digits.take(n) =~= digits);
    } else {
        let longer = digits.take(n + 1);
        assert(longer.drop_last() =~= digits.take(n));
        assert(is_octal_digit(digits[n]));
        assert(longer.last() == digits[n]);
        lemma_octal_value_grows(digits, n + 1);
    }
}

/// Reads the mode of a copy step, which a recipe gives in octal.
pub fn parse_octal(text: &str) -> (r: Result<u32, SchemaError>)
    ensures
        r == (match octal_mode(text@) {
            Some(mode) => Ok::<u32, SchemaError>(mode),
            None => Err(SchemaError::ModeNotOctal),
        }),
{
    let n = text.unicode_len();
    let start: usize = if n > 0 && text.get_char(0) == '+' {
        1
    } else {
        0
    };
    let ghost digits = without_sign(text@);
    assert(digits =~= text@.skip(start as int));
    if start == n {
        return Err(SchemaError::ModeNotOctal);
    }
    let mut value: u64 = 0;
    let mut i: usize = start;
    while i < n
        invariant
            n == text@.len(),
            start <= i <= n,
            digits == text@.skip(start as int),
            digits == without_sign(text@),
            forall|k: int| 0 <= k < i - start ==> is_octal_digit(#[trigger] digits[k]),
            value == octal_value(digits.take(i - start)),
            value <= u32::MAX,
        decreases n - i,
    {
        let c = text.get_char(i);
        assert(digits[i - start] == c);
        if !(c >= '0' && c <= '7') {
            assert(!is_octal_digit(digits[i - start]));
            return Err(SchemaError::ModeNotOctal);
        }
        let next = value * 8 + (c as u64 - '0' as u64);
        proof {
            let longer = digits.take(i + 1 - start);
            assert(longer.drop_last() =~= digits.take(i - start));
            assert(longer.last() == c);
            assert(next == octal_value(longer));
            if next > u32::MAX {
                if forall|k: int| 0 <= k < digits.len() ==> is_octal_digit(#[trigger] digits[k]) {
                    lemma_octal_value_grows(digits, i + 1 - start);
                }
            }
        }
        if next > u32::MAX as u64 {
            return Err(SchemaError::ModeNotOctal);
        }
        value = next;
        i = i + 1;
    }
    assert(digits.take(n - start) =~= digits);
    Ok(value as u32)
}

impl CommandArgs {
    /// The process that the argument vector `args` describes: its first
    /// entry is the program, the others are the arguments. An empty vector
    /// describes no process.
    pub fn from_args(args: Vec<String>) -> (r: Result<CommandArgs, SchemaError>)
        ensures
            args@.len() == 0 ==> r == Err::<CommandArgs, SchemaError>(SchemaError::NoArguments),
            args@.len() > 0 ==> (r matches Ok(CommandArgs::Exec { process, args: rest })
                && process == args@[0] && rest@ == args@.drop_first()),
    {
        let mut args = args;
        if args.len() == 0 {
            return Err(SchemaError::NoArguments);
        }
        let ghost all = args@;
        let process = args.remove(0);
        assert(args@ =~= all.drop_first());
        Ok(CommandArgs::Exec { process, args })
    }
}

impl CommandCopy {
    /// The copy step with these fields. `mode` is the mode as the recipe
    /// writes it, in octal.
    pub fn from_fields(src: String, dest: String, mode: Option<&str>) -> (r: Result<
        CommandCopy,
        SchemaError,
    >)
        ensures
            r == (match mode {
                None => Ok::<CommandCopy, SchemaError>(CommandCopy { src, dest, mode: None }),
                Some(text) => match octal_mode(text@) {
                    Some(bits) => Ok(CommandCopy { src, dest, mode: Some(bits) }),
                    None => Err(SchemaError::ModeNotOctal),
                },
            }),
    {
        match mode {
            None => Ok(CommandCopy { src, dest, mode: None }),
            Some(text) => match parse_octal(text) {
                Ok(bits) => Ok(CommandCopy { src, dest, mode: Some(bits) }),
                Err(e) => Err(e),
            },
        }
    }
}

/// The fields of an exec step, as a recipe writes them. A step may name one
/// process as `command`, several as `commands`, or both.
#[derive(Clone, Debug, PartialEq, Eq)]
pub struct ExecFields {
    pub cwd: Option<String>,
    pub root: Option<String>,
    pub command: Option<CommandArgs>,
    pub commands: Vec<CommandArgs>,
}

impl ExecFields {
    /// The processes that the fields name: the single one first, then the
    /// others in their order.
    pub open spec fn processes(self) -> Seq<CommandArgs> {
        match self.command {
            Some(first) => seq![first] + self.commands@,
            None => self.commands@,
        }
    }
}

impl CommandExec {
    /// The exec step of type `kind` with the fields `fields`.
    ///
    /// A step of type `ocf` needs a root; steps of the other types pass over
    /// one. Every step needs a process. Where both are missing, the
    /// root is missed first. `kind` must be one of the types that run
    /// processes.
    pub fn from_fields(kind: CommandType, fields: ExecFields) -> (r: Result<
        CommandExec,
        SchemaError,
    >)
        requires
            kind != CommandType::Copy,
        ensures
            match r {
                Ok(exec) => {
                    &&& !(kind == CommandType::Ocf && fields.root is None)
                    &&& fields.processes().len() > 0
                    &&& exec.kind == (match kind {
                        CommandType::Ocf => CommandExecType::Ocf { root: fields.root->0 },
                        CommandType::Image => CommandExecType::Image,
                        _ => CommandExecType::Host,
                    })
                    &&& exec.cwd == fields.cwd
                    &&& exec.commands@ == fields.processes()
                },
                Err(e) => if kind == CommandType::Ocf && fields.root is None {
                    e == SchemaError::OcfRequiresRoot
                } else {
                    e == SchemaError::MissingCommand && fields.processes().len() == 0
                },
            },
    {
        let ExecFields { cwd, root, command, commands } = fields;
        let kind = match kind {
            CommandType::Ocf => match root {
                Some(root) => CommandExecType::Ocf { root },
                None => {
                    return Err(SchemaError::OcfRequiresRoot);
                },
            },
            CommandType::Image => CommandExecType::Image,
            _ => CommandExecType::Host,
        };
        let mut commands = commands;
        match command {
            Some(first) => {
                commands.insert(0, first);
                assert(commands@ =~= fields.processes());
            },
            None => {},
        }
        if commands.len() == 0 {
            return Err(SchemaError::MissingCommand);
        }
        Ok(CommandExec { kind, cwd, commands })
    }
}

} // verus!
