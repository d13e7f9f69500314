use vstd::prelude::*;
use crate::settings::Command;

verus! {

/// The commands of `cmds` that belong to the given phase, in the order given.
pub open spec fn phase_commands(cmds: Seq<Command>, after: bool) -> Seq<Command>
    decreases cmds.len(),
{
    if cmds.len() == 0 {
        Seq::empty()
    } else {
        let rest = phase_commands(cmds.drop_last(), after);
        if cmds.last().execute_after_compilation == after {
            rest.push(cmds.last())
        } else {
            rest
        }
    }
}

/// The script made of the texts of `cmds`, each followed by a newline.
pub open spec fn script_of(cmds: Seq<Command>) -> Seq<char>
    decreases cmds.len(),
{
    if cmds.len() == 0 {
        Seq::empty()
    } else {
        script_of(cmds.drop_last()) + cmds.last().command@ + seq!['\n']
    }
}

proof fn lemma_prefix_step<A>(s: Seq<A>, i: int)
    requires
        0 <= i < s.len(),
    ensures
        s.subrange(0, i + 1).drop_last() == s.subrange(0, i),
        s.subrange(0, i + 1).last() == s[i],
{
    assert(s.subrange(0, i + 1).drop_last() =~= s.subrange(0, i));
}

/// Joins the texts of `commands` into one script, one command per line.
pub fn compile_commands(commands: &Vec<Command>) -> (r: String)
    ensures
        r@ == script_of(commands@),
{
    let mut compiled = String::new();
    let mut i: usize = 0;
    while i < commands.len()
        invariant
            i <= commands@.len(),
            compiled@ == script_of(commands@.subrange(0, i as int)),
        decreases commands@.len() - i,
    {
        proof {
            lemma_prefix_step(commands@, i as int);
            reveal_strlit("\n");
        }
        let ghost before = compiled@;
        compiled.append(commands[i].command.as_str());
        compiled.append("\n");
        assert(compiled@ =~= before + commands@[i as int].command@ + seq!['\n']);
        i = i + 1;
    }
    assert(commands@.subrange(0, i as int) =~= commands@);
    compiled
}

/// The script of one phase: the texts of the commands whose phase flag equals
/// `is_after_compilation`, in their configured order, one per line. A phase with
/// no command gives the empty script.
pub fn phase_script(commands: &[Command], is_after_compilation: bool) -> (r: String)
    ensures
        r@ == script_of(phase_commands(commands@, is_after_compilation)),
{
    let mut compiled = String::new();
    let mut i: usize = 0;
    while i < commands.len()
        invariant
            i <= commands@.len(),
            compiled@ == script_of(phase_commands(commands@.subrange(0, i as int), is_after_compilation)),
        decreases commands@.len() - i,
    {
        proof {
            lemma_prefix_step(commands@, i as int);
            reveal_strlit("\n");
        }
        if commands[i].execute_after_compilation == is_after_compilation {
            let ghost before = compiled@;
            compiled.append(commands[i].command.as_str());
            compiled.append("\n");
            assert(compiled@ =~= before + commands@[i as int].command@ + seq!['\n']);
            proof {
                let p = phase_commands(commands@.subrange(0, i as int), is_after_compilation);
                assert(p.push(commands@[i as int]).drop_last() =~= p);
            }
        }
        i = i + 1;
    }
    assert(commands@.subrange(0, i as int) =~= commands@);
    compiled
}

} // verus!
