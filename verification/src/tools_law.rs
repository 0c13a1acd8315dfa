//! What the names of tools and the reports of statements say.

use crate::tools::{listed_lines, report_text, tool_of, Tool};
use vstd::prelude::*;

verus! {

/// The name of a tool.
pub open spec fn name_of(tool: Tool) -> Seq<char> {
    match tool {
        Tool::Help => "help"@,
        Tool::Cat => "cat"@,
        Tool::ListValidations => "list-validations"@,
        Tool::Flatten => "flatten"@,
        Tool::IrToZkif => "ir-to-zkif"@,
        Tool::ZkifToIr => "zkif-to-ir"@,
        Tool::ValidEvalMetrics => "valid-eval-metrics"@,
        Tool::Metrics => "metrics"@,
        Tool::Evaluate => "evaluate"@,
        Tool::Validate => "validate"@,
        Tool::FromYaml => "from-yaml"@,
        Tool::ToYaml => "to-yaml"@,
        Tool::FromJson => "from-json"@,
        Tool::ToJson => "to-json"@,
        Tool::ToText => "to-text"@,
        Tool::BoolExample => "bool-example"@,
        Tool::Example => "example"@,
    }
}

/// Every tool is found by its name.
#[verifier::rlimit(40)]
pub proof fn tools_are_found_by_name(tool: Tool)
    ensures
        tool_of(name_of(tool)) == Some(tool),
{
    reveal_strlit("example");
    reveal_strlit("bool-example");
    reveal_strlit("to-text");
    reveal_strlit("to-json");
    reveal_strlit("from-json");
    reveal_strlit("to-yaml");
    reveal_strlit("from-yaml");
    reveal_strlit("validate");
    reveal_strlit("evaluate");
    reveal_strlit("metrics");
    reveal_strlit("valid-eval-metrics");
    reveal_strlit("zkif-to-ir");
    reveal_strlit("ir-to-zkif");
    reveal_strlit("flatten");
    reveal_strlit("list-validations");
    reveal_strlit("cat");
    reveal_strlit("help");
    let name = name_of(tool);
    assert(name.len() > 2);
    assert(tool_of(name) is Some);
    let found = tool_of(name)->Some_0;
    assert(name_of(found) == name);
    let other = name_of(found);
    assert(other.len() == name.len());
    assert(other[0] == name[0] && other[1] == name[1] && other[2] == name[2]);
    assert(name.len() > 5 ==> other[3] == name[3] && other[5] == name[5]);
}

/// A tool is found by no name but its own.
pub proof fn names_are_of_one_tool(name: Seq<char>)
    ensures
        tool_of(name) matches Some(tool) ==> name == name_of(tool),
{
}

/// Lists of lines one after the other are the lines of both. A single text is a line of its
/// own, and none are no lines.
pub proof fn lines_join(first: Seq<Seq<char>>, second: Seq<Seq<char>>, one: Seq<char>)
    ensures
        listed_lines(first + second) == listed_lines(first) + listed_lines(second),
        listed_lines(seq![one]) == "- "@ + one + "\n"@,
        listed_lines(Seq::empty()).len() == 0,
    decreases second.len(),
{
    reveal_with_fuel(listed_lines, 2);
    assert(seq![one].drop_last() =~= Seq::empty());
    assert(Seq::<char>::empty() + "- "@ =~= "- "@);
    if second.len() == 0 {
        assert(first + second =~= first);
        assert(listed_lines(first) + Seq::empty() =~= listed_lines(first));
    } else {
        lines_join(first, second.drop_last(), one);
        assert((first + second).drop_last() =~= first + second.drop_last());
        assert((first + second).last() == second.last());
        assert(listed_lines(first + second) =~= listed_lines(first) + listed_lines(second));
    }
}

/// A report says that a statement is what it is supposed to be just where nothing is wrong
/// with it; else it ends in what is wrong.
pub proof fn reports_end_in_violations(errors: Seq<Seq<char>>, supposed: Seq<char>)
    ensures
        errors.len() == 0 ==> report_text(errors, supposed) == "The statement is "@ + supposed
            + "!\n"@,
        errors.len() > 0 ==> {
            let text = report_text(errors, supposed);
            let lines = listed_lines(errors);
            &&& text.len() > lines.len()
            &&& text.skip(text.len() - lines.len()) == lines
            &&& text.take(21) == "The statement is NOT "@
            &&& text.subrange(21, 21int + supposed.len()) == supposed
        },
{
    reveal_strlit("The statement is NOT ");
    if errors.len() > 0 {
        let text = report_text(errors, supposed);
        let lines = listed_lines(errors);
        assert(text.skip(text.len() - lines.len()) =~= lines);
        assert(text.take(21) =~= "The statement is NOT "@);
        assert(text.subrange(21, 21int + supposed.len()) =~= supposed);
    }
}

} // verus!
