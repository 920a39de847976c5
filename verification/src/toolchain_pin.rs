//! The pinned toolchain of a workspace: every file that chooses a Rust version chooses the same.

use vstd::prelude::*;

use crate::text::{
    chars_of, contains, ends_with, find, first_index, has_suffix, is_at, is_blank, is_white_space,
    joined, law_first_index, law_lines_are_those_that_were_joined,
    law_trimming_takes_white_space_away, lines_of, occurs_in, same_text, trim, trimmed,
    trimmed_end, trimmed_start,
};

verus! {

/// The version that the workspace is pinned to.
pub const PINNED: &'static str = "1.94.0";

/// The line of the toolchain file that pins the channel.
pub const CHANNEL_PIN: &'static str = "channel = \"1.94.0\"";

/// The line of a workflow that pins its toolchain.
pub const WORKFLOW_PIN: &'static str = "toolchain: 1.94.0";

/// The least number of members that the workspace has.
pub const MIN_MEMBERS: usize = 30;

/// The least number of workflows that install the pinned toolchain.
pub const MIN_PINNED_WORKFLOWS: usize = 3;

/// Both pins name the pinned version.
pub proof fn law_pins_name_one_version()
    ensures
        CHANNEL_PIN@ == "channel = \""@ + PINNED@ + "\""@,
        WORKFLOW_PIN@ == "toolchain: "@ + PINNED@,
{
    reveal_strlit("1.94.0");
    reveal_strlit("channel = \"1.94.0\"");
    reveal_strlit("channel = \"");
    reveal_strlit("\"");
    reveal_strlit("toolchain: 1.94.0");
    reveal_strlit("toolchain: ");
    assert(CHANNEL_PIN@ =~= "channel = \""@ + PINNED@ + "\""@);
    assert(WORKFLOW_PIN@ =~= "toolchain: "@ + PINNED@);
}

/// What is wrong with a file.
#[derive(Clone, Copy, Debug, PartialEq, Eq, Structural)]
pub enum PinFault {
    /// The toolchain file does not pin the channel.
    ChannelNotPinned,
    /// The toolchain file does not name `rustfmt` as a component.
    RustfmtMissing,
    /// The toolchain file does not name `clippy` as a component.
    ClippyMissing,
    /// The root manifest has no `[workspace.package]`.
    WorkspacePackageMissing,
    /// The root manifest does not set the minimum supported version.
    RustVersionMissing,
    /// The root manifest lists too few members to have been read well.
    TooFewMembers { found: usize },
    /// The manifest of a member does not inherit the minimum supported version.
    RustVersionNotInherited,
    /// A workflow installs the moving stable channel.
    StableWorkflow,
    /// A workflow installs Rust, but not the pinned version.
    UnpinnedWorkflow,
    /// Too few workflows install the pinned version.
    TooFewPinnedWorkflows { found: usize },
}

/// What the toolchain file has to hold.
pub open spec fn toolchain_file_check(contents: Seq<char>) -> Result<(), PinFault> {
    if !occurs_in(contents, CHANNEL_PIN@) {
        Err(PinFault::ChannelNotPinned)
    } else if !occurs_in(contents, "\"rustfmt\""@) {
        Err(PinFault::RustfmtMissing)
    } else if !occurs_in(contents, "\"clippy\""@) {
        Err(PinFault::ClippyMissing)
    } else {
        Ok(())
    }
}

/// Checks the toolchain file: it pins the channel and names the components.
pub fn check_toolchain_file(contents: &str) -> (checked: Result<(), PinFault>)
    ensures
        checked == toolchain_file_check(contents@),
{
    if !contains(contents, CHANNEL_PIN) {
        Err(PinFault::ChannelNotPinned)
    } else if !contains(contents, "\"rustfmt\"") {
        Err(PinFault::RustfmtMissing)
    } else if !contains(contents, "\"clippy\"") {
        Err(PinFault::ClippyMissing)
    } else {
        Ok(())
    }
}

/// What the root manifest has to hold.
pub open spec fn root_manifest_check(contents: Seq<char>) -> Result<(), PinFault> {
    if !occurs_in(contents, "[workspace.package]"@) {
        Err(PinFault::WorkspacePackageMissing)
    } else if !occurs_in(contents, "rust-version = \"1.94\""@) {
        Err(PinFault::RustVersionMissing)
    } else {
        Ok(())
    }
}

/// Checks the root manifest: it declares the minimum supported version for the workspace.
pub fn check_root_manifest(contents: &str) -> (checked: Result<(), PinFault>)
    ensures
        checked == root_manifest_check(contents@),
{
    if !contains(contents, "[workspace.package]") {
        Err(PinFault::WorkspacePackageMissing)
    } else if !contains(contents, "rust-version = \"1.94\"") {
        Err(PinFault::RustVersionMissing)
    } else {
        Ok(())
    }
}

/// What stands after the first quotation mark of a line, up to the next one or the end of the
/// line; nothing where there is no quotation mark.
pub open spec fn quoted(line: Seq<char>) -> Option<Seq<char>> {
    let open = first_index(line, '"');
    if 0 <= open < line.len() {
        let rest = line.skip(open + 1);
        Some(rest.take(first_index(rest, '"')))
    } else {
        None
    }
}

/// The members that these lines list, up to a line with the closing bracket alone.
pub open spec fn listed(lines: Seq<Seq<char>>) -> Seq<Seq<char>>
    decreases lines.len(),
{
    if lines.len() == 0 || trimmed(lines[0]) == "]"@ {
        Seq::empty()
    } else {
        match quoted(trimmed(lines[0])) {
            Some(member) => seq![member] + listed(lines.drop_first()),
            None => listed(lines.drop_first()),
        }
    }
}

/// The members that these lines list after the line that opens the list of members.
pub open spec fn members_of(lines: Seq<Seq<char>>) -> Seq<Seq<char>>
    decreases lines.len(),
{
    if lines.len() == 0 {
        Seq::empty()
    } else if trimmed(lines[0]) == "members = ["@ {
        listed(lines.drop_first())
    } else {
        members_of(lines.drop_first())
    }
}

proof fn lemma_members_after(before: Seq<Seq<char>>, rest: Seq<Seq<char>>)
    requires
        forall|i: int| 0 <= i < before.len() ==> trimmed(#[trigger] before[i]) != "members = ["@,
    ensures
        members_of(before + rest) == members_of(rest),
    decreases before.len(),
{
    if before.len() == 0 {
        assert(before + rest =~= rest);
    } else {
        assert((before + rest).drop_first() =~= before.drop_first() + rest);
        assert forall|i: int| 0 <= i < before.len() - 1 implies trimmed(
            #[trigger] before.drop_first()[i],
        ) != "members = ["@ by {
            assert(before.drop_first()[i] == before[i + 1]);
        }
        lemma_members_after(before.drop_first(), rest);
    }
}

proof fn lemma_listed_before(body: Seq<Seq<char>>, close: Seq<char>, after: Seq<Seq<char>>)
    requires
        trimmed(close) == "]"@,
    ensures
        listed(body + seq![close] + after) == listed(body),
    decreases body.len(),
{
    let lines = body + seq![close] + after;
    if body.len() == 0 {
        assert(lines[0] == close);
        assert(listed(body) =~= Seq::empty());
    } else {
        assert(lines[0] == body[0]);
        assert(lines.drop_first() =~= body.drop_first() + seq![close] + after);
        lemma_listed_before(body.drop_first(), close, after);
    }
}

/// The members are what the lines of the first array under that very name list. What stands
/// before it, such as an array of default members, and what stands after it does not count.
pub proof fn law_members_stand_in_their_array(
    before: Seq<Seq<char>>,
    open: Seq<char>,
    body: Seq<Seq<char>>,
    close: Seq<char>,
    after: Seq<Seq<char>>,
)
    requires
        forall|i: int| 0 <= i < before.len() ==> trimmed(#[trigger] before[i]) != "members = ["@,
        trimmed(open) == "members = ["@,
        trimmed(close) == "]"@,
    ensures
        members_of(before + (seq![open] + (body + seq![close] + after))) == listed(body),
{
    let inside = body + seq![close] + after;
    let array = seq![open] + inside;
    lemma_members_after(before, array);
    assert(array.drop_first() =~= inside);
    assert(array[0] == open);
    lemma_listed_before(body, close, after);
}

/// A manifest without such an array has no members.
pub proof fn law_no_array_no_members(lines: Seq<Seq<char>>)
    requires
        forall|i: int| 0 <= i < lines.len() ==> trimmed(#[trigger] lines[i]) != "members = ["@,
    ensures
        members_of(lines).len() == 0,
{
    lemma_members_after(lines, Seq::empty());
    assert(lines + Seq::<Seq<char>>::empty() =~= lines);
}

/// Where the quoted text of a trimmed line begins and ends.
fn quoted_range(chars: &Vec<char>, from: usize, to: usize) -> (range: Option<(usize, usize)>)
    requires
        from <= to <= chars.len(),
    ensures
        match range {
            Some((start, end)) => from <= start <= end <= to && quoted(
                chars@.subrange(from as int, to as int),
            ) == Some(chars@.subrange(start as int, end as int)),
            None => quoted(chars@.subrange(from as int, to as int)) is None,
        },
{
    let ghost line = chars@.subrange(from as int, to as int);
    let open: usize = find(chars, '"', from, to);
    if open == to {
        return None;
    }
    let start: usize = open + 1;
    let end: usize = find(chars, '"', start, to);
    assert(line.skip(open - from + 1) =~= chars@.subrange(start as int, to as int));
    assert(chars@.subrange(start as int, to as int).take(end - start) =~= chars@.subrange(
        start as int,
        end as int,
    ));
    Some((start, end))
}

/// Parses the `members = [ ... ]` array of the root manifest: the directory of each member. The
/// array begins on a line of its own that reads exactly so, so that no other array is taken for
/// it, and ends on a line with the closing bracket alone.
pub fn workspace_members(root_manifest: &str) -> (members: Vec<String>)
    ensures
        members.deep_view() == members_of(lines_of(root_manifest@)),
{
    let chars: Vec<char> = chars_of(root_manifest);
    let mut members: Vec<String> = Vec::new();
    let mut in_members: bool = false;
    let mut from: usize = 0;
    let ghost all = members_of(lines_of(chars@));
    assert(chars@.skip(0) =~= chars@);
    assert(members.deep_view() =~= Seq::empty());
    loop
        invariant
            chars@ == root_manifest@,
            from <= chars.len(),
            all == members_of(lines_of(chars@)),
            in_members ==> members.deep_view() + listed(lines_of(chars@.skip(from as int))) == all,
            !in_members ==> members@.len() == 0 && members_of(lines_of(chars@.skip(from as int)))
                == all,
        decreases chars.len() - from,
    {
        let to: usize = find(&chars, '\n', from, chars.len());
        let (start, end) = trim(&chars, from, to);
        let ghost left = chars@.skip(from as int);
        let ghost lines = lines_of(left);
        let ghost line = trimmed(lines[0]);
        let ghost before = members.deep_view();
        proof {
            assert(left =~= chars@.subrange(from as int, chars@.len() as int));
            assert(left.take(to - from) =~= chars@.subrange(from as int, to as int));
            assert(lines[0] == chars@.subrange(from as int, to as int));
            if to < chars.len() {
                assert(left.skip(to - from + 1) =~= chars@.skip(to + 1));
                assert(lines.drop_first() =~= lines_of(chars@.skip(to + 1)));
            } else {
                assert(lines.drop_first() =~= Seq::empty());
            }
        }
        if !in_members {
            if is_at(&chars, start, end, "members = [") {
                in_members = true;
            }
            assert(members.deep_view() =~= Seq::empty());
        } else if is_at(&chars, start, end, "]") {
            assert(before + Seq::empty() =~= before);
            return members;
        } else {
            match quoted_range(&chars, start, end) {
                Some((open, close)) => {
                    let member = root_manifest.substring_char(open, close);
                    members.push(member.to_owned());
                    assert(members.deep_view() =~= before.push(member@));
                    assert(before.push(member@) + listed(lines.drop_first()) =~= before + (
                    seq![member@] + listed(lines.drop_first())));
                },
                None => {},
            }
        }
        if to == chars.len() {
            assert(listed(lines.drop_first()) =~= Seq::empty());
            assert(members_of(lines.drop_first()) =~= Seq::empty());
            assert(members.deep_view() + Seq::empty() =~= members.deep_view());
            return members;
        }
        from = to + 1;
    }
}

/// The path of a member's manifest, from the root of the workspace.
pub fn member_manifest_path(member: &str) -> (path: String)
    ensures
        path@ == member@ + "/Cargo.toml"@,
{
    let path = member.to_owned();
    path.concat("/Cargo.toml")
}

/// The manifest of a member inherits the minimum supported version.
pub open spec fn inherits_version(manifest: Seq<char>) -> bool {
    occurs_in(manifest, "rust-version.workspace = true"@)
}

/// A file in the workflow directory is a workflow.
pub open spec fn is_workflow(name: Seq<char>) -> bool {
    has_suffix(name, ".yml"@)
}

/// Whether a file in the workflow directory is a workflow.
pub fn is_workflow_name(name: &str) -> (workflow: bool)
    ensures
        workflow == is_workflow(name@),
{
    ends_with(name, ".yml")
}

/// The workflow runs on the nightly channel on purpose.
pub open spec fn is_nightly(name: Seq<char>) -> bool {
    name == "doc.yml"@ || name == "fuzz.yml"@
}

/// The workflow installs Rust.
pub open spec fn installs_rust(contents: Seq<char>) -> bool {
    occurs_in(contents, "dtolnay/rust-toolchain"@) || occurs_in(
        contents,
        "rustup toolchain install"@,
    )
}

/// Whether a workflow installs the pinned version: `false` where it need not.
pub open spec fn workflow_check(name: Seq<char>, contents: Seq<char>) -> Result<bool, PinFault> {
    if !is_workflow(name) || !installs_rust(contents) {
        Ok(false)
    } else if occurs_in(contents, "toolchain: stable"@) {
        Err(PinFault::StableWorkflow)
    } else if is_nightly(name) {
        Ok(false)
    } else if occurs_in(contents, WORKFLOW_PIN@) {
        Ok(true)
    } else {
        Err(PinFault::UnpinnedWorkflow)
    }
}

/// Checks a file in the workflow directory: a workflow that installs Rust installs the pinned
/// version, unless it is one of those that run on nightly. Says whether it installs that version.
pub fn check_workflow(name: &str, contents: &str) -> (checked: Result<bool, PinFault>)
    ensures
        checked == workflow_check(name@, contents@),
{
    if !is_workflow_name(name) {
        return Ok(false);
    }
    let installs_rust: bool = contains(contents, "dtolnay/rust-toolchain") || contains(
        contents,
        "rustup toolchain install",
    );
    if !installs_rust {
        return Ok(false);
    }
    if contains(contents, "toolchain: stable") {
        return Err(PinFault::StableWorkflow);
    }
    if same_text(name, "doc.yml") || same_text(name, "fuzz.yml") {
        return Ok(false);
    }
    if contains(contents, WORKFLOW_PIN) {
        Ok(true)
    } else {
        Err(PinFault::UnpinnedWorkflow)
    }
}

/// A file in the workflow directory.
#[derive(Debug)]
pub struct WorkflowFile {
    pub name: String,
    pub contents: String,
}

impl WorkflowFile {
    /// What [`check_workflow`] says of this file.
    pub open spec fn check(self) -> Result<bool, PinFault> {
        workflow_check(self.name@, self.contents@)
    }
}

/// A fault, with the place among the files of the one that has it; no place where it is one of
/// all files together.
#[derive(Clone, Copy, Debug, PartialEq, Eq, Structural)]
pub struct FoundFault {
    pub file: Option<usize>,
    pub fault: PinFault,
}

/// How many of the files install the pinned version.
pub open spec fn pinned_count(files: Seq<WorkflowFile>) -> nat
    decreases files.len(),
{
    if files.len() == 0 {
        0
    } else {
        pinned_count(files.drop_last()) + if files.last().check() == Ok::<bool, PinFault>(true) {
            1nat
        } else {
            0nat
        }
    }
}

/// Checks all files in the workflow directory: none has a fault, and enough of them install the
/// pinned version. Says how many do, or the first fault.
pub fn check_workflows(files: &Vec<WorkflowFile>) -> (checked: Result<usize, FoundFault>)
    ensures
        match checked {
            Ok(pinned) => {
                &&& forall|i: int| 0 <= i < files@.len() ==> (#[trigger] files@[i]).check() is Ok
                &&& pinned == pinned_count(files@) >= MIN_PINNED_WORKFLOWS
            },
            Err(FoundFault { file: Some(at), fault }) => {
                &&& at < files@.len()
                &&& files@[at as int].check() == Err::<bool, PinFault>(fault)
                &&& forall|i: int| 0 <= i < at ==> (#[trigger] files@[i]).check() is Ok
            },
            Err(FoundFault { file: None, fault }) => {
                &&& forall|i: int| 0 <= i < files@.len() ==> (#[trigger] files@[i]).check() is Ok
                &&& pinned_count(files@) < MIN_PINNED_WORKFLOWS
                &&& fault == PinFault::TooFewPinnedWorkflows {
                    found: pinned_count(files@) as usize,
                }
            },
        },
{
    let mut pinned: usize = 0;
    let mut at: usize = 0;
    assert(files@.take(0) =~= Seq::empty());
    while at < files.len()
        invariant
            at <= files.len(),
            pinned == pinned_count(files@.take(at as int)),
            pinned <= at,
            forall|i: int| 0 <= i < at ==> (#[trigger] files@[i]).check() is Ok,
        decreases files.len() - at,
    {
        assert(files@.take(at + 1).drop_last() =~= files@.take(at as int));
        match check_workflow(files[at].name.as_str(), files[at].contents.as_str()) {
            Ok(true) => {
                pinned += 1;
            },
            Ok(false) => {},
            Err(fault) => {
                return Err(FoundFault { file: Some(at), fault });
            },
        }
        at += 1;
    }
    assert(files@.take(at as int) =~= files@);
    if pinned >= MIN_PINNED_WORKFLOWS {
        Ok(pinned)
    } else {
        Err(
            FoundFault {
                file: None,
                fault: PinFault::TooFewPinnedWorkflows { found: pinned },
            },
        )
    }
}

/// Checks the manifests of all members, in the order of the members: there are enough, and each
/// inherits the minimum supported version. Gives the first fault.
pub fn check_member_manifests(manifests: &Vec<String>) -> (checked: Result<(), FoundFault>)
    ensures
        match checked {
            Ok(_) => {
                &&& manifests@.len() >= MIN_MEMBERS
                &&& forall|i: int| 0 <= i < manifests@.len() ==> inherits_version(#[trigger] manifests@[i]@)
            },
            Err(FoundFault { file: None, fault }) => {
                &&& manifests@.len() < MIN_MEMBERS
                &&& fault == PinFault::TooFewMembers { found: manifests@.len() as usize }
            },
            Err(FoundFault { file: Some(at), fault }) => {
                &&& MIN_MEMBERS <= manifests@.len()
                &&& at < manifests@.len()
                &&& !inherits_version(manifests@[at as int]@)
                &&& fault == PinFault::RustVersionNotInherited
                &&& forall|i: int| 0 <= i < at ==> inherits_version(#[trigger] manifests@[i]@)
            },
        },
{
    if manifests.len() < MIN_MEMBERS {
        return Err(
            FoundFault {
                file: None,
                fault: PinFault::TooFewMembers { found: manifests.len() },
            },
        );
    }
    let mut at: usize = 0;
    while at < manifests.len()
        invariant
            at <= manifests.len(),
            MIN_MEMBERS <= manifests@.len(),
            forall|i: int| 0 <= i < at ==> inherits_version(#[trigger] manifests@[i]@),
        decreases manifests.len() - at,
    {
        if !contains(manifests[at].as_str(), "rust-version.workspace = true") {
            return Err(FoundFault { file: Some(at), fault: PinFault::RustVersionNotInherited });
        }
        at += 1;
    }
    Ok(())
}

/// The toolchain file is in order exactly where it pins the channel to the pinned version and names
/// both components. What is reported is missing, and what would have been reported before it is
/// there.
pub proof fn law_toolchain_file(contents: Seq<char>)
    ensures
        PINNED@ == "1.94.0"@,
        toolchain_file_check(contents) is Ok <==> occurs_in(
            contents,
            "channel = \""@ + PINNED@ + "\""@,
        ) && occurs_in(contents, "\"rustfmt\""@) && occurs_in(contents, "\"clippy\""@),
        match toolchain_file_check(contents) {
            Ok(_) => true,
            Err(PinFault::ChannelNotPinned) => !occurs_in(
                contents,
                "channel = \""@ + PINNED@ + "\""@,
            ),
            Err(PinFault::RustfmtMissing) => !occurs_in(contents, "\"rustfmt\""@) && occurs_in(
                contents,
                "channel = \""@ + PINNED@ + "\""@,
            ),
            Err(PinFault::ClippyMissing) => !occurs_in(contents, "\"clippy\""@) && occurs_in(
                contents,
                "\"rustfmt\""@,
            ),
            Err(_) => false,
        },
{
    law_pins_name_one_version();
}

/// The root manifest is in order exactly where it has a table for the workspace's packages and sets
/// the minimum supported version.
pub proof fn law_root_manifest(contents: Seq<char>)
    ensures
        root_manifest_check(contents) is Ok <==> occurs_in(contents, "[workspace.package]"@)
            && occurs_in(contents, "rust-version = \"1.94\""@),
        match root_manifest_check(contents) {
            Ok(_) => true,
            Err(PinFault::WorkspacePackageMissing) => !occurs_in(
                contents,
                "[workspace.package]"@,
            ),
            Err(PinFault::RustVersionMissing) => !occurs_in(
                contents,
                "rust-version = \"1.94\""@,
            ) && occurs_in(contents, "[workspace.package]"@),
            Err(_) => false,
        },
{
}

/// A file counts as pinned exactly where it is a workflow that installs Rust, names the pinned
/// version, does not name the stable channel and is not one of the two that run on nightly. It has
/// a fault exactly where it is a workflow that installs Rust and names the stable channel, or does
/// not name the pinned version although it does not run on nightly.
pub proof fn law_workflow(name: Seq<char>, contents: Seq<char>)
    ensures
        workflow_check(name, contents) == Ok::<bool, PinFault>(true) <==> {
            &&& has_suffix(name, ".yml"@)
            &&& occurs_in(contents, "dtolnay/rust-toolchain"@) || occurs_in(
                contents,
                "rustup toolchain install"@,
            )
            &&& occurs_in(contents, "toolchain: "@ + PINNED@)
            &&& !occurs_in(contents, "toolchain: stable"@)
            &&& name != "doc.yml"@ && name != "fuzz.yml"@
        },
        workflow_check(name, contents) is Err <==> {
            &&& has_suffix(name, ".yml"@)
            &&& occurs_in(contents, "dtolnay/rust-toolchain"@) || occurs_in(
                contents,
                "rustup toolchain install"@,
            )
            &&& occurs_in(contents, "toolchain: stable"@) || (name != "doc.yml"@ && name
                != "fuzz.yml"@ && !occurs_in(contents, "toolchain: "@ + PINNED@))
        },
        workflow_check(name, contents) matches Err(fault) ==> fault == if occurs_in(
            contents,
            "toolchain: stable"@,
        ) {
            PinFault::StableWorkflow
        } else {
            PinFault::UnpinnedWorkflow
        },
        PINNED@ == "1.94.0"@,
{
    law_pins_name_one_version();
}

/// How many files count as pinned: each that does counts once, wherever it stands among the files.
pub proof fn law_pinned_workflows_are_counted(
    before: Seq<WorkflowFile>,
    file: WorkflowFile,
    after: Seq<WorkflowFile>,
)
    ensures
        pinned_count(before + seq![file] + after) == pinned_count(before + after) + (
        if workflow_check(file.name@, file.contents@) == Ok::<bool, PinFault>(true) {
            1nat
        } else {
            0nat
        }),
        pinned_count(Seq::empty()) == 0,
        file.check() == workflow_check(file.name@, file.contents@),
        MIN_PINNED_WORKFLOWS == 3,
    decreases after.len(),
{
    let all = before + seq![file] + after;
    if after.len() == 0 {
        assert(all.drop_last() =~= before + after);
        assert(all.last() == file);
    } else {
        let fewer = after.drop_last();
        law_pinned_workflows_are_counted(before, file, fewer);
        assert(all.drop_last() =~= before + seq![file] + fewer);
        assert((before + after).drop_last() =~= before + fewer);
        assert(all.last() == after.last() && (before + after).last() == after.last());
    }
}

/// A manifest inherits the version exactly where it says so; thirty members are asked for.
pub proof fn law_members_inherit(manifest: Seq<char>)
    ensures
        inherits_version(manifest) <==> occurs_in(manifest, "rust-version.workspace = true"@),
        MIN_MEMBERS == 30,
{
}

/// What stands between the first two quotation marks of a line is the member that it lists, all of
/// it and whatever it holds. Where there is no second mark, it goes to the end of the line; a line
/// without a mark lists nothing.
pub proof fn law_member_stands_between_quotes(
    before: Seq<char>,
    member: Seq<char>,
    after: Seq<char>,
)
    requires
        !before.contains('"'),
        !member.contains('"'),
    ensures
        quoted(before + seq!['"'] + member + seq!['"'] + after) == Some(member),
        quoted(before + seq!['"'] + member) == Some(member),
        quoted(before) is None,
{
    law_first_index(before, '"', Seq::empty());
    let line = before + seq!['"'] + member + seq!['"'] + after;
    let rest = member + seq!['"'] + after;
    law_first_index(before, '"', rest);
    assert(line =~= before.push('"') + rest);
    assert(line.skip(before.len() as int + 1) =~= rest);
    law_first_index(member, '"', after);
    assert(rest =~= member.push('"') + after);
    assert(rest.take(member.len() as int) =~= member);
    let open = before + seq!['"'] + member;
    law_first_index(before, '"', member);
    assert(open =~= before.push('"') + member);
    assert(open.skip(before.len() as int + 1) =~= member);
    assert(member.take(member.len() as int) =~= member);
}

/// A line of a manifest that lists a member: white space, the member between quotation marks, and
/// what follows, such as a comma and a comment.
pub struct MemberLine {
    pub indent: Seq<char>,
    pub member: Seq<char>,
    pub rest: Seq<char>,
    pub trailing: Seq<char>,
}

impl MemberLine {
    /// The line as it is written.
    pub open spec fn text(self) -> Seq<char> {
        self.indent + (seq!['"'] + self.member + seq!['"'] + self.rest) + self.trailing
    }

    /// Such a line: the member holds no quotation mark, and no line feed stands in it.
    pub open spec fn wf(self) -> bool {
        &&& is_blank(self.indent)
        &&& is_blank(self.trailing)
        &&& self.rest.len() > 0 ==> !is_white_space(self.rest.last())
        &&& !self.member.contains('"')
        &&& !self.text().contains('\n')
    }
}

proof fn lemma_member_line(line: MemberLine)
    requires
        line.wf(),
    ensures
        trimmed(line.text()) != "]"@,
        quoted(trimmed(line.text())) == Some(line.member),
{
    let core = seq!['"'] + line.member + seq!['"'] + line.rest;
    assert(core.last() == if line.rest.len() > 0 {
        line.rest.last()
    } else {
        '"'
    });
    law_trimming_takes_white_space_away(line.indent, core, line.trailing);
    let none = Seq::<char>::empty();
    law_member_stands_between_quotes(none, line.member, line.rest);
    assert(none + seq!['"'] + line.member + seq!['"'] + line.rest =~= core);
    reveal_strlit("]");
    assert(core[0] == '"');
}

proof fn lemma_listed_members(lines: Seq<MemberLine>)
    requires
        forall|i: int| 0 <= i < lines.len() ==> (#[trigger] lines[i]).wf(),
    ensures
        listed(lines.map_values(|line: MemberLine| line.text())) == lines.map_values(
            |line: MemberLine| line.member,
        ),
    decreases lines.len(),
{
    let texts = lines.map_values(|line: MemberLine| line.text());
    let members = lines.map_values(|line: MemberLine| line.member);
    if lines.len() > 0 {
        let rest = lines.drop_first();
        assert forall|i: int| 0 <= i < rest.len() implies (#[trigger] rest[i]).wf() by {
            assert(rest[i] == lines[i + 1]);
        }
        lemma_listed_members(rest);
        assert(lines[0].wf());
        lemma_member_line(lines[0]);
        assert(texts.drop_first() =~= rest.map_values(|line: MemberLine| line.text()));
        assert(members =~= seq![lines[0].member] + rest.map_values(|line: MemberLine| line.member));
    } else {
        assert(listed(texts) =~= members);
    }
}

/// A manifest in which a line opens the array of members, lines list them, and a line closes it has
/// exactly these members, in order, whatever other lines stand before and after.
pub proof fn law_manifest_has_the_members_that_it_lists(
    before: Seq<Seq<char>>,
    open_indent: Seq<char>,
    lines: Seq<MemberLine>,
    close_indent: Seq<char>,
    after: Seq<Seq<char>>,
)
    requires
        forall|i: int|
            0 <= i < before.len() ==> !(#[trigger] before[i]).contains('\n') && trimmed(before[i])
                != "members = ["@,
        is_blank(open_indent) && !open_indent.contains('\n'),
        forall|i: int| 0 <= i < lines.len() ==> (#[trigger] lines[i]).wf(),
        is_blank(close_indent) && !close_indent.contains('\n'),
        forall|i: int| 0 <= i < after.len() ==> !(#[trigger] after[i]).contains('\n'),
    ensures
        members_of(
            lines_of(
                joined(
                    before + (seq![open_indent + "members = ["@] + (lines.map_values(
                        |line: MemberLine| line.text(),
                    ) + seq![close_indent + "]"@] + after)),
                ),
            ),
        ) == lines.map_values(|line: MemberLine| line.member),
{
    let open = open_indent + "members = ["@;
    let close = close_indent + "]"@;
    let texts = lines.map_values(|line: MemberLine| line.text());
    let none = Seq::<char>::empty();
    reveal_strlit("members = [");
    reveal_strlit("]");
    law_trimming_takes_white_space_away(open_indent, "members = ["@, none);
    law_trimming_takes_white_space_away(close_indent, "]"@, none);
    assert(open + none =~= open);
    assert(close + none =~= close);
    assert(!open.contains('\n')) by {
        assert forall|i: int| 0 <= i < open.len() implies open[i] != '\n' by {
            if i < open_indent.len() {
                assert(open_indent.contains(open_indent[i]));
            } else {
                assert(open[i] == "members = ["@[i - open_indent.len()]);
            }
        }
    }
    assert(!close.contains('\n')) by {
        assert forall|i: int| 0 <= i < close.len() implies close[i] != '\n' by {
            if i < close_indent.len() {
                assert(close_indent.contains(close_indent[i]));
            } else {
                assert(close[i] == "]"@[i - close_indent.len()]);
            }
        }
    }
    let all = before + (seq![open] + (texts + seq![close] + after));
    assert forall|i: int| 0 <= i < all.len() implies !(#[trigger] all[i]).contains('\n') by {
        let b = before.len() as int;
        let t = texts.len() as int;
        if i < b {
            assert(all[i] == before[i]);
        } else if i == b {
            assert(all[i] == open);
        } else if i < b + 1 + t {
            assert(all[i] == lines[i - b - 1].text());
            assert(lines[i - b - 1].wf());
        } else if i == b + 1 + t {
            assert(all[i] == close);
        } else {
            assert(all[i] == after[i - b - t - 2]);
        }
    }
    law_lines_are_those_that_were_joined(all);
    law_members_stand_in_their_array(before, open, texts, close, after);
    lemma_listed_members(lines);
}

proof fn lemma_trimmed_holds_no_more(s: Seq<char>, c: char)
    requires
        !s.contains(c),
    ensures
        !trimmed_start(s).contains(c),
        !trimmed_end(s).contains(c),
    decreases s.len(),
{
    if s.len() > 0 {
        let first = s.drop_first();
        let last = s.drop_last();
        assert forall|i: int| 0 <= i < first.len() implies first[i] != c by {
            assert(s.contains(s[i + 1]));
        }
        assert forall|i: int| 0 <= i < last.len() implies last[i] != c by {
            assert(s.contains(s[i]));
        }
        lemma_trimmed_holds_no_more(first, c);
        lemma_trimmed_holds_no_more(last, c);
    }
}

/// Within the array of members, each line speaks for itself: a line without a quotation mark, such
/// as an empty one or a comment, lists nothing, and the lines before a line list what they list
/// without it.
pub proof fn law_lines_list_one_by_one(before: Seq<Seq<char>>, line: Seq<char>)
    requires
        forall|i: int| 0 <= i < before.len() ==> trimmed(#[trigger] before[i]) != "]"@,
        trimmed(line) != "]"@,
    ensures
        listed(before.push(line)) == match quoted(trimmed(line)) {
            Some(member) => listed(before).push(member),
            None => listed(before),
        },
        !line.contains('"') ==> listed(before.push(line)) == listed(before),
    decreases before.len(),
{
    let all = before.push(line);
    if !line.contains('"') {
        lemma_trimmed_holds_no_more(line, '"');
        lemma_trimmed_holds_no_more(trimmed_start(line), '"');
        law_first_index(trimmed(line), '"', Seq::empty());
    }
    if before.len() > 0 {
        let rest = before.drop_first();
        assert forall|i: int| 0 <= i < rest.len() implies trimmed(#[trigger] rest[i]) != "]"@ by {
            assert(rest[i] == before[i + 1]);
        }
        law_lines_list_one_by_one(rest, line);
        assert(all.drop_first() =~= rest.push(line));
        assert(all[0] == before[0]);
        assert(trimmed(before[0]) != "]"@);
        match quoted(trimmed(line)) {
            Some(member) => {
                match quoted(trimmed(before[0])) {
                    Some(first) => {
                        assert(seq![first] + listed(rest).push(member) =~= (seq![first] + listed(
                            rest,
                        )).push(member));
                    },
                    None => {},
                }
            },
            None => {},
        }
    } else {
        assert(all[0] == line);
        assert(all.drop_first() =~= Seq::empty());
        assert(listed(before) =~= Seq::empty());
        assert(listed(all.drop_first()) =~= Seq::empty());
        match quoted(trimmed(line)) {
            Some(member) => {
                assert(seq![member] + Seq::<Seq<char>>::empty() =~= Seq::empty().push(member));
            },
            None => {},
        }
    }
}

/// An array of members that no line closes goes to the end of the manifest.
pub proof fn law_open_array_goes_to_the_end(
    before: Seq<Seq<char>>,
    open: Seq<char>,
    body: Seq<Seq<char>>,
)
    requires
        forall|i: int| 0 <= i < before.len() ==> trimmed(#[trigger] before[i]) != "members = ["@,
        trimmed(open) == "members = ["@,
    ensures
        members_of(before + (seq![open] + body)) == listed(body),
{
    let array = seq![open] + body;
    lemma_members_after(before, array);
    assert(array.drop_first() =~= body);
    assert(array[0] == open);
}

} // verus!
