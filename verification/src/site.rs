//! Full-compile planning: every file found under the input root maps to
//! exactly one action — markdown files are compiled to their mirrored
//! `.html` location, every other file is copied byte-for-byte to its
//! mirrored location. The filesystem work itself (emptying the output
//! tree, creating directories, reading and writing files) stays with the
//! caller; the plan fixes where each output belongs.
use vstd::prelude::*;

use crate::paths::html_target;
use crate::paths::is_markdown_path;
use crate::paths::is_under;
use crate::paths::is_markdown_file;
use crate::paths::rel_of;
use crate::paths::strip_dir_prefix;
use crate::paths::with_html_extension;

verus! {

/// What the compiler is to do with one input file.
pub enum OutputAction {
    /// Compile the markdown file `input` and write the document to
    /// `output_rel` below the output root.
    CompilePage { input: String, output_rel: String },
    /// Copy the resource file `input` byte-for-byte to `output_rel` below
    /// the output root.
    CopyResource { input: String, output_rel: String },
}

/// The relative output location that mirrors one input file: the path
/// below the input root, with `.md` becoming `.html` for markdown files.
pub open spec fn target_rel_of(path: Seq<char>, dir: Seq<char>) -> Seq<char> {
    if is_markdown_path(path) {
        html_target(rel_of(path, dir))
    } else {
        rel_of(path, dir)
    }
}

/// The action is the right one for this input file: the matching kind, the
/// input itself, and the mirrored output location.
pub open spec fn action_matches(a: OutputAction, path: Seq<char>, dir: Seq<char>) -> bool {
    match a {
        OutputAction::CompilePage { input, output_rel } => {
            &&& is_markdown_path(path)
            &&& input@ == path
            &&& output_rel@ == target_rel_of(path, dir)
        },
        OutputAction::CopyResource { input, output_rel } => {
            &&& !is_markdown_path(path)
            &&& input@ == path
            &&& output_rel@ == target_rel_of(path, dir)
        },
    }
}

/// Where an action writes, relative to the output root.
pub open spec fn action_output_rel(a: OutputAction) -> Seq<char> {
    match a {
        OutputAction::CompilePage { input, output_rel } => output_rel@,
        OutputAction::CopyResource { input, output_rel } => output_rel@,
    }
}

/// The action for one input file below the input root.
pub fn plan_file(input: &String, input_dir: &str) -> (r: OutputAction)
    requires
        is_under(input@, input_dir@),
    ensures
        action_matches(r, input@, input_dir@),
{
    let rel = match strip_dir_prefix(input.as_str(), input_dir) {
        Some(rest) => rest,
        None => vstd::pervasive::unreached(),
    };
    if is_markdown_file(input.as_str()) {
        OutputAction::CompilePage {
            input: input.clone(),
            output_rel: with_html_extension(rel.as_str()),
        }
    } else {
        OutputAction::CopyResource { input: input.clone(), output_rel: rel }
    }
}

/// The full-compile plan: one action per discovered input file, in the
/// order the files were handed in.
pub fn plan_site(inputs: &Vec<String>, input_dir: &str) -> (r: Vec<OutputAction>)
    requires
        forall|i: int| 0 <= i < inputs@.len() ==> is_under(#[trigger] inputs@[i]@, input_dir@),
    ensures
        r@.len() == inputs@.len(),
        forall|i: int|
            0 <= i < r@.len() ==> action_matches(#[trigger] r@[i], inputs@[i]@, input_dir@),
{
    let mut r: Vec<OutputAction> = Vec::new();
    let mut i: usize = 0;
    while i < inputs.len()
        invariant
            i <= inputs@.len(),
            r@.len() == i,
            forall|j: int| 0 <= j < inputs@.len() ==> is_under(#[trigger] inputs@[j]@, input_dir@),
            forall|j: int|
                0 <= j < i ==> action_matches(#[trigger] r@[j], inputs@[j]@, input_dir@),
        decreases inputs@.len() - i,
    {
        let a = plan_file(&inputs[i], input_dir);
        r.push(a);
        i = i + 1;
    }
    r
}

/// Full-compile cleanup: the plan writes only to the mirrored targets of
/// its inputs. Since a full compile first empties the output tree, any
/// stray file that mirrors none of the inputs is absent afterwards.
pub proof fn lemma_plan_touches_only_targets(
    plan: Seq<OutputAction>,
    inputs: Seq<String>,
    dir: Seq<char>,
    stray: Seq<char>,
)
    requires
        plan.len() == inputs.len(),
        forall|i: int| 0 <= i < plan.len() ==> action_matches(#[trigger] plan[i], inputs[i]@, dir),
        forall|i: int| 0 <= i < inputs.len() ==> target_rel_of(#[trigger] inputs[i]@, dir) != stray,
    ensures
        forall|i: int| 0 <= i < plan.len() ==> action_output_rel(#[trigger] plan[i]) != stray,
{
    assert forall|i: int| 0 <= i < plan.len() implies action_output_rel(#[trigger] plan[i])
        != stray by {
        assert(action_matches(plan[i], inputs[i]@, dir));
        assert(target_rel_of(inputs[i]@, dir) != stray);
    }
}

} // verus!
