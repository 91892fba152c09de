//! The shell command of each recipe step, and the chain of stamped steps that
//! builds one image.

use crate::dag::{paths_text, rule_text, rules_text, Dag, ToFilePath, ToShellString};
use crate::schema::{Command, CommandArgs, CommandCopy, CommandExec, CommandExecType, ImageRecipe};
use crate::shell::{rootless, shell_join, shell_string, strip_root, token_views};
use crate::stamp::{digest, stamp_name, stamped_command, Stamp, StampView, Stamper};
use vstd::prelude::*;

verus! {

/// The eight octal digits, in order.
pub open spec fn octal_digits() -> Seq<char> {
    seq!['0', '1', '2', '3', '4', '5', '6', '7']
}

/// `n` in octal, without leading zeros.
pub open spec fn octal(n: nat) -> Seq<char>
    decreases n,
{
    if n < 8 {
        seq![octal_digits()[n as int]]
    } else {
        octal(n / 8).push(octal_digits()[(n % 8) as int])
    }
}

/// `s` with as many zeros in front as bring it to four characters.
pub open spec fn zero_pad4(s: Seq<char>) -> Seq<char> {
    if s.len() < 4 {
        Seq::new((4 - s.len()) as nat, |i: int| '0') + s
    } else {
        s
    }
}

/// The permission bits that a copied file gets: those given, in octal and at
/// least four digits wide, or `0644`.
pub open spec fn mode_text(mode: Option<u32>) -> Seq<char> {
    match mode {
        Some(bits) => zero_pad4(octal(bits as nat)),
        None => seq!['0', '6', '4', '4'],
    }
}

/// The path `rel` as seen from the directory `base`. A path that starts at
/// the root stands for itself. Any other path lies below `base`: the two are
/// joined by a slash unless `base` is empty or brings its own.
pub open spec fn join_path(base: Seq<char>, rel: Seq<char>) -> Seq<char> {
    if rel.len() > 0 && rel[0] == '/' {
        rel
    } else if base.len() == 0 || base.last() == '/' {
        base + rel
    } else {
        base + seq!['/'] + rel
    }
}

/// The command of a copy step: `install -Dm`, the mode, the source, and the
/// destination taken as a path below the image.
pub open spec fn copy_tokens(image_dest: Seq<char>, copy: CommandCopy) -> Seq<Seq<char>> {
    seq![
        "install"@,
        "-Dm"@,
        mode_text(copy.mode),
        copy.src@,
        join_path(image_dest, strip_root(copy.dest@)),
    ]
}

/// What stands in front of a process, by where it runs: nothing on the host,
/// and a call of `encage-run` with the image or the bundle otherwise.
pub open spec fn launcher_tokens(kind: CommandExecType, image_dest: Seq<char>) -> Seq<Seq<char>> {
    match kind {
        CommandExecType::Ocf { root } => seq!["encage-run"@, "ocf"@, root@],
        CommandExecType::Image => seq!["encage-run"@, "exec"@, image_dest],
        CommandExecType::Host => Seq::empty(),
    }
}

/// The argument vector of a process: `sh -ec` and the script, or the program
/// and its arguments.
pub open spec fn process_tokens(args: CommandArgs) -> Seq<Seq<char>> {
    match args {
        CommandArgs::Shell(script) => seq!["sh"@, "-ec"@, script@],
        CommandArgs::Exec { process, args } => seq![process@] + Seq::new(
            args@.len(),
            |i: int| args@[i]@,
        ),
    }
}

/// The command of one process of an exec step.
pub open spec fn process_command(
    kind: CommandExecType,
    image_dest: Seq<char>,
    args: CommandArgs,
) -> Seq<char> {
    shell_join(launcher_tokens(kind, image_dest) + process_tokens(args))
}

/// The commands of the processes `list`, joined by `&&`, so that each runs
/// only if those before it succeeded.
pub open spec fn and_chain(
    kind: CommandExecType,
    image_dest: Seq<char>,
    list: Seq<CommandArgs>,
) -> Seq<char>
    decreases list.len(),
{
    if list.len() == 0 {
        Seq::empty()
    } else if list.len() == 1 {
        process_command(kind, image_dest, list[0])
    } else {
        and_chain(kind, image_dest, list.drop_last()) + seq![' ', '&', '&', ' ']
            + process_command(kind, image_dest, list.last())
    }
}

/// The command line of a recipe step for an image that goes to `image_dest`.
pub open spec fn command_line(image_dest: Seq<char>, command: Command) -> Seq<char> {
    match command {
        Command::Copy(copy) => shell_join(copy_tokens(image_dest, copy)),
        Command::Exec(exec) => and_chain(exec.kind, image_dest, exec.commands@),
    }
}

/// Appends `n` in octal to `out`.
fn push_octal(out: &mut String, n: u32)
    ensures
        final(out)@ == old(out)@ + octal(n as nat),
    decreases n,
{
    if n >= 8 {
        push_octal(out, n / 8);
    }
    let digits = "01234567";
    let at = (n % 8) as usize;
    proof {
        reveal_strlit("01234567");
        assert(digits@ =~= octal_digits());
    }
    out.append(digits.substring_char(at, at + 1));
    proof {
        assert(digits@.subrange(at as int, at + 1) =~= seq![octal_digits()[at as int]]);
        assert(final(out)@ =~= old(out)@ + octal(n as nat));
    }
}

/// Renders the permission bits of a copied file.
pub fn mode_string(mode: Option<u32>) -> (s: String)
    ensures
        s@ == mode_text(mode),
{
    match mode {
        None => {
            proof {
                reveal_strlit("0644");
                assert("0644"@ =~= mode_text(mode));
            }
            "0644".to_owned()
        },
        Some(bits) => {
            let mut digits = String::new();
            push_octal(&mut digits, bits);
            assert(digits@ =~= octal(bits as nat));
            let len = digits.as_str().unicode_len();
            let mut s = String::new();
            let mut k: usize = len;
            while k < 4
                invariant
                    len <= k,
                    len < 4 ==> k <= 4,
                    len >= 4 ==> k == len,
                    s@ == Seq::new((k - len) as nat, |i: int| '0'),
                decreases 4 - k,
            {
                s.append("0");
                proof {
                    reveal_strlit("0");
                    assert(s@ =~= Seq::new((k + 1 - len) as nat, |i: int| '0'));
                }
                k = k + 1;
            }
            s.append(digits.as_str());
            assert(s@ =~= zero_pad4(digits@));
            s
        },
    }
}

/// Renders the path `rel` as seen from the directory `base`.
pub fn path_below(base: &str, rel: &str) -> (s: String)
    ensures
        s@ == join_path(base@, rel@),
{
    if rel.unicode_len() > 0 && rel.get_char(0) == '/' {
        return rel.to_owned();
    }
    let n = base.unicode_len();
    let mut s = base.to_owned();
    if n > 0 && base.get_char(n - 1) != '/' {
        s.append("/");
        proof {
            reveal_strlit("/");
        }
    }
    s.append(rel);
    assert(s@ =~= join_path(base@, rel@));
    s
}

/// A step of a recipe, seen together with the recipe it belongs to.
pub struct CommandContext<'a> {
    image: &'a ImageRecipe,
    command: &'a Command,
}

/// What a command context holds.
pub ghost struct CommandContextView {
    pub image: ImageRecipe,
    pub command: Command,
}

impl<'a> View for CommandContext<'a> {
    type V = CommandContextView;

    closed spec fn view(&self) -> CommandContextView {
        CommandContextView { image: *self.image, command: *self.command }
    }
}

impl<'a> CommandContext<'a> {
    /// The step `command`, to be run for the image of the recipe `image`.
    pub fn new(image: &'a ImageRecipe, command: &'a Command) -> (context: Self)
        ensures
            context@ == (CommandContextView { image: *image, command: *command }),
    {
        CommandContext { image, command }
    }

    /// Renders the command of a copy step.
    fn copy_string(&self, copy: &CommandCopy) -> (s: String)
        ensures
            s@ == shell_join(copy_tokens(self@.image.image.dest@, *copy)),
    {
        let dest = path_below(self.image.image.dest.as_str(), rootless(copy.dest.as_str()));
        let mode = mode_string(copy.mode);
        let mut args: Vec<&str> = Vec::new();
        args.push("install");
        args.push("-Dm");
        args.push(mode.as_str());
        args.push(copy.src.as_str());
        args.push(dest.as_str());
        assert(token_views(args@) =~= copy_tokens(self@.image.image.dest@, *copy));
        shell_string(args.as_slice())
    }

    /// Renders the command of one process of an exec step.
    fn process_string(&self, kind: &CommandExecType, process: &CommandArgs) -> (s: String)
        ensures
            s@ == process_command(*kind, self@.image.image.dest@, *process),
    {
        let mut args: Vec<&str> = Vec::new();
        match kind {
            CommandExecType::Ocf { root } => {
                args.push("encage-run");
                args.push("ocf");
                args.push(root.as_str());
            },
            CommandExecType::Image => {
                args.push("encage-run");
                args.push("exec");
                args.push(self.image.image.dest.as_str());
            },
            CommandExecType::Host => {},
        }
        let ghost launcher = launcher_tokens(*kind, self@.image.image.dest@);
        let ghost front = args@;
        assert(token_views(front) =~= launcher);
        match process {
            CommandArgs::Shell(script) => {
                let script = script.as_str();
                args.push("sh");
                args.push("-ec");
                args.push(script);
                proof {
                    let got = token_views(args@);
                    let all = launcher + process_tokens(*process);
                    assert(got.len() == all.len());
                    assert forall|j: int| 0 <= j < got.len() implies got[j] == all[j] by {
                        if j < front.len() {
                            assert(got[j] == token_views(front)[j]);
                        }
                    }
                    assert(got =~= all);
                }
            },
            CommandArgs::Exec { process: program, args: rest } => {
                let program = program.as_str();
                args.push(program);
                let mut i: usize = 0;
                while i < rest.len()
                    invariant
                        i <= rest.len(),
                        args@.len() == front.len() + 1 + i,
                        forall|j: int| 0 <= j < front.len() ==> args@[j] == front[j],
                        args@[front.len() as int] == program,
                        forall|j: int|
                            0 <= j < i ==> (#[trigger] args@[front.len() + 1 + j])@ == rest@[j]@,
                    decreases rest.len() - i,
                {
                    args.push(rest[i].as_str());
                    i = i + 1;
                }
                proof {
                    let got = token_views(args@);
                    let tail = process_tokens(*process);
                    let all = launcher + tail;
                    assert(tail.len() == 1 + rest@.len());
                    assert(got.len() == all.len());
                    assert forall|j: int| 0 <= j < got.len() implies got[j] == all[j] by {
                        if j < front.len() {
                            assert(got[j] == token_views(front)[j]);
                        } else if j == front.len() {
                            assert(all[j] == tail[0]);
                        } else {
                            let k = j - front.len() - 1;
                            assert(args@[front.len() + 1 + k]@ == rest@[k]@);
                            assert(all[j] == tail[k + 1]);
                        }
                    }
                    assert(got =~= all);
                }
            },
        }
        shell_string(args.as_slice())
    }

    /// Renders the command of an exec step.
    fn exec_string(&self, exec: &CommandExec) -> (s: String)
        ensures
            s@ == and_chain(exec.kind, self@.image.image.dest@, exec.commands@),
    {
        let ghost dest = self@.image.image.dest@;
        let mut s = String::new();
        let mut i: usize = 0;
        while i < exec.commands.len()
            invariant
                i <= exec.commands.len(),
                dest == self@.image.image.dest@,
                s@ == and_chain(exec.kind, dest, exec.commands@.take(i as int)),
            decreases exec.commands.len() - i,
        {
            let one = self.process_string(&exec.kind, &exec.commands[i]);
            if i > 0 {
                s.append(" && ");
            }
            s.append(one.as_str());
            proof {
                reveal_strlit(" && ");
                let next = exec.commands@.take(i + 1);
                assert(next.drop_last() =~= exec.commands@.take(i as int));
                assert(next.last() == exec.commands@[i as int]);
                if i == 0 {
                    assert(next[0] == exec.commands@[0]);
                }
                assert(s@ =~= and_chain(exec.kind, dest, next));
            }
            i = i + 1;
        }
        assert(exec.commands@.take(exec.commands.len() as int) =~= exec.commands@);
        s
    }
}

impl<'a> ToShellString for CommandContext<'a> {
    open spec fn shell_view(&self) -> Seq<char> {
        command_line(self@.image.image.dest@, self@.command)
    }

    /// The command line of the step.
    fn to_shell_string(&self) -> (s: String) {
        match self.command {
            Command::Copy(copy) => self.copy_string(copy),
            Command::Exec(exec) => self.exec_string(exec),
        }
    }
}

/// Whether `dag` is the chain of the first `n` steps of `recipe`: step `i`
/// is node `i`, its stamp is value `i`, the node makes its own stamp and
/// reads the stamp of the step before it.
pub open spec fn is_chain_of(
    dag: Dag<Stamper<CommandContext<'_>>, Stamp>,
    recipe: ImageRecipe,
    n: int,
) -> bool {
    &&& dag.wf()
    &&& dag@.values.len() == n
    &&& dag@.nodes.len() == n
    &&& forall|i: int|
        #![trigger dag@.values[i]]
        #![trigger dag@.nodes[i]]
        0 <= i < n ==> {
            &&& dag@.values[i]@ == (StampView {
                prefix: "stamp-"@,
                hash: digest(recipe.commands@[i].encoding()),
            })
            &&& dag@.nodes[i].payload@.stamp == dag@.values[i]@
            &&& dag@.nodes[i].payload@.inner@ == (CommandContextView {
                image: recipe,
                command: recipe.commands@[i],
            })
            &&& dag@.nodes[i].outputs.len() == 1
            &&& dag@.nodes[i].outputs[0].index() == i
            &&& dag@.nodes[i].inputs.len() == (if i == 0 {
                0nat
            } else {
                1nat
            })
            &&& i > 0 ==> dag@.nodes[i].inputs[0].index() == i - 1
        }
}

/// Lays the steps of `recipe` out as a chain.
///
/// Each step becomes a node whose command ends by touching the step's stamp.
/// The stamp is the node's output and the input of the next node, which is
/// what makes the steps run in the order of the recipe.
pub fn linearize<'a>(recipe: &'a ImageRecipe) -> (dag: Dag<Stamper<CommandContext<'a>>, Stamp>)
    ensures
        is_chain_of(dag, *recipe, recipe.commands@.len() as int),
{
    let mut dag: Dag<Stamper<CommandContext<'a>>, Stamp> = Dag::new();
    let mut last: Option<crate::dag::DagValueId> = None;
    let mut i: usize = 0;
    while i < recipe.commands.len()
        invariant
            i <= recipe.commands.len(),
            is_chain_of(dag, *recipe, i as int),
            i == 0 ==> last is None,
            i > 0 ==> last is Some && last->0.index() == i - 1,
        decreases recipe.commands.len() - i,
    {
        let command = &recipe.commands[i];
        let mut payload: Vec<u8> = Vec::new();
        command.encode(&mut payload);
        assert(payload@ =~= command.encoding());
        let stamp = Stamp::new("stamp-", payload.as_slice());
        let stamped = Stamper::new(CommandContext::new(recipe, command), stamp.clone());
        let ghost before = dag@;
        let value = dag.add_value(stamp);
        let node = dag.add_node(stamped);
        dag.add_output(node, value);
        if let Some(previous) = last {
            dag.add_input(node, previous);
        }
        last = Some(value);
        proof {
            assert forall|k: int| 0 <= k < i implies dag@.values[k] == before.values[k]
                && dag@.nodes[k] == before.nodes[k] by {}
        }
        i = i + 1;
    }
    dag
}

/// The stamp of a step of a recipe.
pub open spec fn step_stamp(command: Command) -> StampView {
    StampView { prefix: "stamp-"@, hash: digest(command.encoding()) }
}

/// The rule of step `i` of a recipe: the stamp of the step is made from the
/// stamp of the step before it, if there is one, by the command of the step
/// and a touch of the stamp.
pub open spec fn step_rule(recipe: ImageRecipe, i: int) -> Seq<char> {
    let stamp = step_stamp(recipe.commands@[i]);
    let before = if i > 0 {
        stamp_name(step_stamp(recipe.commands@[i - 1]).prefix, step_stamp(recipe.commands@[i - 1]).hash)
            + seq![' ']
    } else {
        Seq::empty()
    };
    stamp_name(stamp.prefix, stamp.hash) + seq![' '] + seq![':', ' '] + before + seq!['\n', '\t']
        + stamped_command(command_line(recipe.image.dest@, recipe.commands@[i]), stamp) + seq![
        '\n',
    ]
}

/// The rules of the first `n` steps of a recipe, one after the other.
pub open spec fn steps_text(recipe: ImageRecipe, n: int) -> Seq<char>
    decreases n,
{
    if n <= 0 {
        Seq::empty()
    } else {
        steps_text(recipe, n - 1) + step_rule(recipe, n - 1)
    }
}

/// The paths of one value are the path of the value and a space.
proof fn lemma_paths_of_one(values: Seq<Stamp>, ids: Seq<crate::dag::DagValueId>)
    requires
        ids.len() == 1,
    ensures
        paths_text(values, ids) == values[ids[0].index() as int].path_view() + seq![' '],
{
    assert(ids.drop_last().len() == 0);
    assert(paths_text(values, ids.drop_last()) =~= Seq::<char>::empty());
    assert(paths_text(values, ids) =~= values[ids[0].index() as int].path_view() + seq![' ']);
}

/// In the chain of a recipe, the rule of each node is the rule of its step.
pub proof fn lemma_chain_rule(
    dag: Dag<Stamper<CommandContext<'_>>, Stamp>,
    recipe: ImageRecipe,
    n: int,
    i: int,
)
    requires
        is_chain_of(dag, recipe, n),
        0 <= i < n,
    ensures
        rule_text(dag@.nodes[i], dag@.values) == step_rule(recipe, i),
{
    let node = dag@.nodes[i];
    let values = dag@.values;
    lemma_paths_of_one(values, node.outputs);
    assert(values[i]@ == step_stamp(recipe.commands@[i]));
    if i > 0 {
        lemma_paths_of_one(values, node.inputs);
        assert(values[i - 1]@ == step_stamp(recipe.commands@[i - 1]));
    } else {
        assert(paths_text(values, node.inputs) =~= Seq::<char>::empty());
    }
    assert(node.payload.shell_view() == stamped_command(
        command_line(recipe.image.dest@, recipe.commands@[i]),
        values[i]@,
    ));
    assert(rule_text(node, values) =~= step_rule(recipe, i));
}

/// The makefile of the chain of a recipe holds the rules of its steps, in
/// the order of the recipe.
pub proof fn lemma_chain_makefile(
    dag: Dag<Stamper<CommandContext<'_>>, Stamp>,
    recipe: ImageRecipe,
    n: int,
)
    requires
        is_chain_of(dag, recipe, n),
    ensures
        dag@.makefile_text() == steps_text(recipe, n),
{
    lemma_chain_prefix(dag, recipe, n, n);
    assert(dag@.nodes.take(n) =~= dag@.nodes);
}

/// The rules of the first `k` nodes of the chain of a recipe are the rules
/// of its first `k` steps.
proof fn lemma_chain_prefix(
    dag: Dag<Stamper<CommandContext<'_>>, Stamp>,
    recipe: ImageRecipe,
    n: int,
    k: int,
)
    requires
        is_chain_of(dag, recipe, n),
        0 <= k <= n,
    ensures
        rules_text(dag@.nodes.take(k), dag@.values) == steps_text(recipe, k),
    decreases k,
{
    if k > 0 {
        lemma_chain_prefix(dag, recipe, n, k - 1);
        lemma_chain_rule(dag, recipe, n, k - 1);
        let front = dag@.nodes.take(k);
        assert(front.drop_last() =~= dag@.nodes.take(k - 1));
        assert(front.last() == dag@.nodes[k - 1]);
    }
}

} // verus!
