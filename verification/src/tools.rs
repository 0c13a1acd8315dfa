//! What the command line tools decide.

use crate::error::{decimal, decimal_text, Error};
use vstd::prelude::*;
use vstd::string::*;

verus! {

/// A command line tool.
#[derive(Clone, Copy, Debug, PartialEq, Eq)]
pub enum Tool {
    Example,
    BoolExample,
    ToText,
    ToJson,
    FromJson,
    ToYaml,
    FromYaml,
    Validate,
    Evaluate,
    Metrics,
    ValidEvalMetrics,
    ZkifToIr,
    IrToZkif,
    Flatten,
    ListValidations,
    Cat,
    Help,
}

/// The tool of a name.
pub open spec fn tool_of(name: Seq<char>) -> Option<Tool> {
    if name == "example"@ {
        Some(Tool::Example)
    } else if name == "bool-example"@ {
        Some(Tool::BoolExample)
    } else if name == "to-text"@ {
        Some(Tool::ToText)
    } else if name == "to-json"@ {
        Some(Tool::ToJson)
    } else if name == "from-json"@ {
        Some(Tool::FromJson)
    } else if name == "to-yaml"@ {
        Some(Tool::ToYaml)
    } else if name == "from-yaml"@ {
        Some(Tool::FromYaml)
    } else if name == "validate"@ {
        Some(Tool::Validate)
    } else if name == "evaluate"@ {
        Some(Tool::Evaluate)
    } else if name == "metrics"@ {
        Some(Tool::Metrics)
    } else if name == "valid-eval-metrics"@ {
        Some(Tool::ValidEvalMetrics)
    } else if name == "zkif-to-ir"@ {
        Some(Tool::ZkifToIr)
    } else if name == "ir-to-zkif"@ {
        Some(Tool::IrToZkif)
    } else if name == "flatten"@ {
        Some(Tool::Flatten)
    } else if name == "list-validations"@ {
        Some(Tool::ListValidations)
    } else if name == "cat"@ {
        Some(Tool::Cat)
    } else if name == "help"@ {
        Some(Tool::Help)
    } else {
        None
    }
}

/// Why a name is none of a tool.
pub open spec fn no_tool_text(name: Seq<char>) -> Seq<char> {
    if name == "simulate"@ {
        "`simulate` was renamed to `evaluate`"@
    } else if name == "stats"@ {
        "`stats` was renamed to `metrics`"@
    } else {
        "Unknown command "@ + name
    }
}

fn is(name: &String, other: &str) -> (r: bool)
    ensures
        r == (name@ == other@),
{
    *name == other.to_owned()
}

/// Finds a tool by its name.
pub fn tool_named(name: &String) -> (r: Result<Tool, Error>)
    ensures
        match r {
            Ok(tool) => tool_of(name@) == Some(tool),
            Err(e) => tool_of(name@) is None && e@ == no_tool_text(name@),
        },
{
    if is(name, "example") {
        Ok(Tool::Example)
    } else if is(name, "bool-example") {
        Ok(Tool::BoolExample)
    } else if is(name, "to-text") {
        Ok(Tool::ToText)
    } else if is(name, "to-json") {
        Ok(Tool::ToJson)
    } else if is(name, "from-json") {
        Ok(Tool::FromJson)
    } else if is(name, "to-yaml") {
        Ok(Tool::ToYaml)
    } else if is(name, "from-yaml") {
        Ok(Tool::FromYaml)
    } else if is(name, "validate") {
        Ok(Tool::Validate)
    } else if is(name, "evaluate") {
        Ok(Tool::Evaluate)
    } else if is(name, "metrics") {
        Ok(Tool::Metrics)
    } else if is(name, "valid-eval-metrics") {
        Ok(Tool::ValidEvalMetrics)
    } else if is(name, "zkif-to-ir") {
        Ok(Tool::ZkifToIr)
    } else if is(name, "ir-to-zkif") {
        Ok(Tool::IrToZkif)
    } else if is(name, "flatten") {
        Ok(Tool::Flatten)
    } else if is(name, "list-validations") {
        Ok(Tool::ListValidations)
    } else if is(name, "cat") {
        Ok(Tool::Cat)
    } else if is(name, "help") {
        Ok(Tool::Help)
    } else if is(name, "simulate") {
        Err(Error::new("`simulate` was renamed to `evaluate`"))
    } else if is(name, "stats") {
        Err(Error::new("`stats` was renamed to `metrics`"))
    } else {
        let mut message = "Unknown command ".to_owned();
        message.append(name.as_str());
        Err(Error { message })
    }
}

/// Several texts.
pub open spec fn texts(list: Seq<String>) -> Seq<Seq<char>> {
    list.map_values(|s: String| s@)
}

/// Texts as a list, one in a line.
pub open spec fn listed_lines(list: Seq<Seq<char>>) -> Seq<char>
    decreases list.len(),
{
    if list.len() == 0 {
        Seq::empty()
    } else {
        listed_lines(list.drop_last()) + "- "@ + list.last() + "\n"@
    }
}

/// What is reported of a statement: that it is what it is supposed to be, or what is
/// wrong with it.
pub open spec fn report_text(errors: Seq<Seq<char>>, supposed: Seq<char>) -> Seq<char> {
    if errors.len() == 0 {
        "The statement is "@ + supposed + "!\n"@
    } else {
        "The statement is NOT "@ + supposed + "!\nViolations:\n"@ + listed_lines(errors)
    }
}

/// Reports what is wrong with a statement. The verdict is an error where anything is.
pub fn report(errors: &Vec<String>, supposed: &str) -> (r: (String, Result<(), Error>))
    ensures
        r.0@ == report_text(texts(errors@), supposed@),
        match r.1 {
            Ok(_) => errors@.len() == 0,
            Err(e) => errors@.len() > 0 && e@ == "Found "@ + decimal(errors@.len())
                + " violations."@,
        },
{
    if errors.len() == 0 {
        let mut text = "The statement is ".to_owned();
        text.append(supposed);
        text.append("!\n");
        return (text, Ok(()));
    }
    let mut text = "The statement is NOT ".to_owned();
    text.append(supposed);
    text.append("!\nViolations:\n");
    let ghost start = text@;
    let ghost all = texts(errors@);
    let mut k: usize = 0;
    assert(start + listed_lines(all.take(0)) =~= start);
    while k < errors.len()
        invariant
            k <= errors@.len(),
            all == texts(errors@),
            text@ == start + listed_lines(all.take(k as int)),
        decreases errors@.len() - k,
    {
        let ghost next = all.take(k + 1);
        assert(next.drop_last() =~= all.take(k as int));
        assert(next.last() == errors@[k as int]@);
        text.append("- ");
        text.append(errors[k].as_str());
        text.append("\n");
        assert(text@ =~= start + listed_lines(next));
        k = k + 1;
    }
    assert(all.take(k as int) =~= all);
    let mut message = "Found ".to_owned();
    message.append(decimal_text(errors.len() as u64).as_str());
    message.append(" violations.");
    (text, Err(Error { message }))
}

} // verus!
