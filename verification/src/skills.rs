//! Bundled agent skill wrappers: which ones ship, and how their installed copies are
//! reported, checked and installed.
//!
//! A wrapper is installed at its package target under the config directory. Reading and
//! writing those files is left to the caller, which reports what it found.

use vstd::prelude::*;

use crate::context::CoreContext;
use crate::output::{SkillWrapperRecord, SkillWrapperResult};
use crate::text::{decimal, owned, push_decimal, push_str};

verus! {

/// One bundled skill wrapper.
#[derive(Clone, Copy, Debug)]
pub struct SkillWrapperSpec {
    /// Skill name.
    pub name: &'static str,
    /// Entry that documents the skill.
    pub entry_id: &'static str,
    /// Wrapper artifact path in the lake.
    pub wrapper_path: &'static str,
    /// Full skill artifact path in the lake.
    pub full_path: &'static str,
    /// Installed package path, relative to the config directory.
    pub target_path: &'static str,
}

/// Skill name, entry and package target of each bundled wrapper, in order.
pub open spec fn bundled_wrappers() -> Seq<(Seq<char>, Seq<char>, Seq<char>)> {
    seq![
        ("sirno-config-writer"@, "config-writing-discipline"@, ".agents/skills/sirno-config-writer/SKILL.md"@),
        ("sirno-editor"@, "lake-editing-discipline"@, ".agents/skills/sirno-editor/SKILL.md"@),
        ("sirno-explorer"@, "lake-exploration-discipline"@, ".agents/skills/sirno-explorer/SKILL.md"@),
        ("sirno-narrative-session"@, "narrative-session-discipline"@, ".agents/skills/sirno-narrative-session/SKILL.md"@),
        ("sirno-skill-synthesizer"@, "skill-synthesis-discipline"@, ".agents/skills/sirno-skill-synthesizer/SKILL.md"@),
        ("sirno-witness"@, "witness-linking-discipline"@, ".agents/skills/sirno-witness/SKILL.md"@),
    ]
}

/// Wrapper artifact path of the skill documented by `entry`.
pub open spec fn wrapper_artifact(entry: Seq<char>) -> Seq<char> {
    "sirno-docs/.artifacts/"@ + entry + "/SKILL.md"@
}

/// Full skill artifact path of the skill documented by `entry`.
pub open spec fn full_artifact(entry: Seq<char>) -> Seq<char> {
    "sirno-docs/.artifacts/"@ + entry + "/SKILL.full.md"@
}

/// A spec is the bundled wrapper `w`.
pub open spec fn spec_is(s: SkillWrapperSpec, w: (Seq<char>, Seq<char>, Seq<char>)) -> bool {
    &&& s.name@ == w.0
    &&& s.entry_id@ == w.1
    &&& s.target_path@ == w.2
    &&& s.wrapper_path@ == wrapper_artifact(w.1)
    &&& s.full_path@ == full_artifact(w.1)
}

/// One wrapper spec.
fn wrapper(
    name: &'static str,
    entry_id: &'static str,
    wrapper_path: &'static str,
    full_path: &'static str,
    target_path: &'static str,
) -> (r: SkillWrapperSpec)
    ensures
        r.name@ == name@,
        r.entry_id@ == entry_id@,
        r.wrapper_path@ == wrapper_path@,
        r.full_path@ == full_path@,
        r.target_path@ == target_path@,
{
    SkillWrapperSpec { name, entry_id, wrapper_path, full_path, target_path }
}

/// The bundled skill wrappers, in order.
pub fn skill_wrapper_specs() -> (r: Vec<SkillWrapperSpec>)
    ensures
        r@.len() == bundled_wrappers().len(),
        forall|i: int| 0 <= i < r@.len() ==> spec_is(#[trigger] r@[i], bundled_wrappers()[i]),
{
    let mut v: Vec<SkillWrapperSpec> = Vec::new();
    v.push(wrapper(
        "sirno-config-writer",
        "config-writing-discipline",
        "sirno-docs/.artifacts/config-writing-discipline/SKILL.md",
        "sirno-docs/.artifacts/config-writing-discipline/SKILL.full.md",
        ".agents/skills/sirno-config-writer/SKILL.md",
    ));
    v.push(wrapper(
        "sirno-editor",
        "lake-editing-discipline",
        "sirno-docs/.artifacts/lake-editing-discipline/SKILL.md",
        "sirno-docs/.artifacts/lake-editing-discipline/SKILL.full.md",
        ".agents/skills/sirno-editor/SKILL.md",
    ));
    v.push(wrapper(
        "sirno-explorer",
        "lake-exploration-discipline",
        "sirno-docs/.artifacts/lake-exploration-discipline/SKILL.md",
        "sirno-docs/.artifacts/lake-exploration-discipline/SKILL.full.md",
        ".agents/skills/sirno-explorer/SKILL.md",
    ));
    v.push(wrapper(
        "sirno-narrative-session",
        "narrative-session-discipline",
        "sirno-docs/.artifacts/narrative-session-discipline/SKILL.md",
        "sirno-docs/.artifacts/narrative-session-discipline/SKILL.full.md",
        ".agents/skills/sirno-narrative-session/SKILL.md",
    ));
    v.push(wrapper(
        "sirno-skill-synthesizer",
        "skill-synthesis-discipline",
        "sirno-docs/.artifacts/skill-synthesis-discipline/SKILL.md",
        "sirno-docs/.artifacts/skill-synthesis-discipline/SKILL.full.md",
        ".agents/skills/sirno-skill-synthesizer/SKILL.md",
    ));
    v.push(wrapper(
        "sirno-witness",
        "witness-linking-discipline",
        "sirno-docs/.artifacts/witness-linking-discipline/SKILL.md",
        "sirno-docs/.artifacts/witness-linking-discipline/SKILL.full.md",
        ".agents/skills/sirno-witness/SKILL.md",
    ));
    proof {
        reveal_strlit("sirno-docs/.artifacts/");
        reveal_strlit("/SKILL.md");
        reveal_strlit("/SKILL.full.md");
        reveal_strlit("config-writing-discipline");
        reveal_strlit("lake-editing-discipline");
        reveal_strlit("lake-exploration-discipline");
        reveal_strlit("narrative-session-discipline");
        reveal_strlit("skill-synthesis-discipline");
        reveal_strlit("witness-linking-discipline");
        reveal_strlit("sirno-docs/.artifacts/config-writing-discipline/SKILL.md");
        reveal_strlit("sirno-docs/.artifacts/config-writing-discipline/SKILL.full.md");
        reveal_strlit("sirno-docs/.artifacts/lake-editing-discipline/SKILL.md");
        reveal_strlit("sirno-docs/.artifacts/lake-editing-discipline/SKILL.full.md");
        reveal_strlit("sirno-docs/.artifacts/lake-exploration-discipline/SKILL.md");
        reveal_strlit("sirno-docs/.artifacts/lake-exploration-discipline/SKILL.full.md");
        reveal_strlit("sirno-docs/.artifacts/narrative-session-discipline/SKILL.md");
        reveal_strlit("sirno-docs/.artifacts/narrative-session-discipline/SKILL.full.md");
        reveal_strlit("sirno-docs/.artifacts/skill-synthesis-discipline/SKILL.md");
        reveal_strlit("sirno-docs/.artifacts/skill-synthesis-discipline/SKILL.full.md");
        reveal_strlit("sirno-docs/.artifacts/witness-linking-discipline/SKILL.md");
        reveal_strlit("sirno-docs/.artifacts/witness-linking-discipline/SKILL.full.md");
        assert(v@[0].wrapper_path@ =~= wrapper_artifact("config-writing-discipline"@));
        assert(v@[0].full_path@ =~= full_artifact("config-writing-discipline"@));
        assert(v@[1].wrapper_path@ =~= wrapper_artifact("lake-editing-discipline"@));
        assert(v@[1].full_path@ =~= full_artifact("lake-editing-discipline"@));
        assert(v@[2].wrapper_path@ =~= wrapper_artifact("lake-exploration-discipline"@));
        assert(v@[2].full_path@ =~= full_artifact("lake-exploration-discipline"@));
        assert(v@[3].wrapper_path@ =~= wrapper_artifact("narrative-session-discipline"@));
        assert(v@[3].full_path@ =~= full_artifact("narrative-session-discipline"@));
        assert(v@[4].wrapper_path@ =~= wrapper_artifact("skill-synthesis-discipline"@));
        assert(v@[4].full_path@ =~= full_artifact("skill-synthesis-discipline"@));
        assert(v@[5].wrapper_path@ =~= wrapper_artifact("witness-linking-discipline"@));
        assert(v@[5].full_path@ =~= full_artifact("witness-linking-discipline"@));
    }
    v
}

impl SkillWrapperSpec {
    /// The record of this wrapper with a status.
    pub fn record(&self, status: &str, changed: bool) -> (r: SkillWrapperRecord)
        ensures
            r.name@ == self.name@,
            r.entry_id@ == self.entry_id@,
            r.wrapper_path@ == self.wrapper_path@,
            r.full_path@ == self.full_path@,
            r.target_path@ == self.target_path@,
            r.status@ == status@,
            r.changed == changed,
    {
        SkillWrapperRecord {
            name: owned(self.name),
            entry_id: owned(self.entry_id),
            wrapper_path: owned(self.wrapper_path),
            full_path: owned(self.full_path),
            target_path: owned(self.target_path),
            status: owned(status),
            changed,
        }
    }
}

/// What the installed copy of a wrapper holds.
#[derive(Clone, Copy, Debug, PartialEq, Eq, Structural)]
pub enum SkillTargetState {
    /// The bundled text.
    Matches,
    /// Some other text.
    Differs,
    /// No file.
    Missing,
}

/// Status of a wrapper under check.
pub open spec fn check_status(s: SkillTargetState) -> Seq<char> {
    match s {
        SkillTargetState::Matches => "ok"@,
        SkillTargetState::Differs => "drifted"@,
        SkillTargetState::Missing => "missing"@,
    }
}

/// Status of a wrapper under install.
pub open spec fn install_status(s: SkillTargetState) -> Seq<char> {
    match s {
        SkillTargetState::Matches => "unchanged"@,
        _ => "wrote"@,
    }
}

/// Whether installing writes the wrapper: unless the installed copy already matches.
pub fn install_writes(state: SkillTargetState) -> (r: bool)
    ensures
        r == (state != SkillTargetState::Matches),
{
    !matches!(state, SkillTargetState::Matches)
}

/// Number of states that are not `Matches`.
pub open spec fn changed_count(states: Seq<(SkillWrapperSpec, SkillTargetState)>) -> nat
    decreases states.len(),
{
    if states.len() == 0 {
        0
    } else {
        changed_count(states.drop_last()) + if states.last().1 == SkillTargetState::Matches {
            0nat
        } else {
            1nat
        }
    }
}

/// A record matches a wrapper with a status and a changed flag.
pub open spec fn record_of(r: SkillWrapperRecord, s: SkillWrapperSpec, status: Seq<char>, changed: bool) -> bool {
    &&& r.name@ == s.name@
    &&& r.entry_id@ == s.entry_id@
    &&& r.wrapper_path@ == s.wrapper_path@
    &&& r.full_path@ == s.full_path@
    &&& r.target_path@ == s.target_path@
    &&& r.status@ == status
    &&& r.changed == changed
}

/// Records of observed wrappers, with the status `install` or `check` gives each.
fn observed_records(observed: &[(SkillWrapperSpec, SkillTargetState)], install: bool) -> (r: Vec<SkillWrapperRecord>)
    ensures
        r@.len() == observed@.len(),
        forall|i: int|
            0 <= i < observed@.len() ==> record_of(
                #[trigger] r@[i],
                observed@[i].0,
                if install {
                    install_status(observed@[i].1)
                } else {
                    check_status(observed@[i].1)
                },
                observed@[i].1 != SkillTargetState::Matches,
            ),
{
    let mut out: Vec<SkillWrapperRecord> = Vec::new();
    let mut i: usize = 0;
    while i < observed.len()
        invariant
            i <= observed@.len(),
            out@.len() == i,
            forall|k: int|
                0 <= k < i ==> record_of(
                    #[trigger] out@[k],
                    observed@[k].0,
                    if install {
                        install_status(observed@[k].1)
                    } else {
                        check_status(observed@[k].1)
                    },
                    observed@[k].1 != SkillTargetState::Matches,
                ),
        decreases observed@.len() - i,
    {
        let (spec, state) = observed[i];
        let status = if install {
            match state {
                SkillTargetState::Matches => "unchanged",
                _ => "wrote",
            }
        } else {
            match state {
                SkillTargetState::Matches => "ok",
                SkillTargetState::Differs => "drifted",
                SkillTargetState::Missing => "missing",
            }
        };
        let changed = !matches!(state, SkillTargetState::Matches);
        out.push(spec.record(status, changed));
        i = i + 1;
    }
    out
}

/// Count the observed wrappers that are not installed as bundled.
fn count_changed(observed: &[(SkillWrapperSpec, SkillTargetState)]) -> (r: usize)
    ensures
        r == changed_count(observed@),
{
    let mut n: usize = 0;
    let mut i: usize = 0;
    assert(observed@.take(0) =~= Seq::<(SkillWrapperSpec, SkillTargetState)>::empty());
    while i < observed.len()
        invariant
            i <= observed@.len(),
            n == changed_count(observed@.take(i as int)),
            n <= i,
        decreases observed@.len() - i,
    {
        assert(observed@.take(i + 1).drop_last() =~= observed@.take(i as int));
        assert(observed@.take(i + 1).last() == observed@[i as int]);
        if !matches!(observed[i].1, SkillTargetState::Matches) {
            n = n + 1;
        }
        i = i + 1;
    }
    assert(observed@.take(i as int) =~= observed@);
    n
}

impl CoreContext {
    /// The bundled wrappers, each with status `source`.
    pub fn skill_wrappers_list(&self) -> (r: SkillWrapperResult)
        ensures
            r.ok,
            r.records@.len() == bundled_wrappers().len(),
            forall|i: int|
                0 <= i < r.records@.len() ==> #[trigger] r.records@[i].name@ == bundled_wrappers()[i].0
                    && r.records@[i].entry_id@ == bundled_wrappers()[i].1
                    && r.records@[i].target_path@ == bundled_wrappers()[i].2
                    && r.records@[i].wrapper_path@ == wrapper_artifact(bundled_wrappers()[i].1)
                    && r.records@[i].full_path@ == full_artifact(bundled_wrappers()[i].1)
                    && r.records@[i].status@ == "source"@ && !r.records@[i].changed,
            r.message@ == "found "@ + decimal(bundled_wrappers().len()) + " Sirno skill wrappers"@,
    {
        let specs = skill_wrapper_specs();
        let mut records: Vec<SkillWrapperRecord> = Vec::new();
        let mut i: usize = 0;
        while i < specs.len()
            invariant
                i <= specs@.len(),
                specs@.len() == bundled_wrappers().len(),
                forall|k: int| 0 <= k < specs@.len() ==> spec_is(#[trigger] specs@[k], bundled_wrappers()[k]),
                records@.len() == i,
                forall|k: int| 0 <= k < i ==> record_of(#[trigger] records@[k], specs@[k], "source"@, false),
            decreases specs@.len() - i,
        {
            records.push(specs[i].record("source", false));
            i = i + 1;
        }
        assert forall|k: int| 0 <= k < records@.len() implies #[trigger] records@[k].name@ == bundled_wrappers()[k].0
            && records@[k].entry_id@ == bundled_wrappers()[k].1
            && records@[k].target_path@ == bundled_wrappers()[k].2
            && records@[k].wrapper_path@ == wrapper_artifact(bundled_wrappers()[k].1)
            && records@[k].full_path@ == full_artifact(bundled_wrappers()[k].1)
            && records@[k].status@ == "source"@ && !records@[k].changed by {
            assert(record_of(records@[k], specs@[k], "source"@, false));
            assert(spec_is(specs@[k], bundled_wrappers()[k]));
        }
        let mut message = String::new();
        push_str(&mut message, "found ");
        push_decimal(&mut message, records.len());
        push_str(&mut message, " Sirno skill wrappers");
        SkillWrapperResult { ok: true, message, records }
    }

    /// The result of checking installed wrappers against the bundled ones.
    pub fn skill_wrappers_check(&self, observed: &[(SkillWrapperSpec, SkillTargetState)]) -> (r: SkillWrapperResult)
        ensures
            r.records@.len() == observed@.len(),
            forall|i: int|
                0 <= i < observed@.len() ==> record_of(
                    #[trigger] r.records@[i],
                    observed@[i].0,
                    check_status(observed@[i].1),
                    observed@[i].1 != SkillTargetState::Matches,
                ),
            r.ok == (changed_count(observed@) == 0),
            r.message@ == if changed_count(observed@) == 0 {
                "all "@ + decimal(observed@.len()) + " Sirno skill wrappers match artifacts"@
            } else {
                decimal(changed_count(observed@)) + " Sirno skill wrappers differ from artifacts"@
            },
    {
        let records = observed_records(observed, false);
        let changed = count_changed(observed);
        let mut message = String::new();
        if changed == 0 {
            push_str(&mut message, "all ");
            push_decimal(&mut message, records.len());
            push_str(&mut message, " Sirno skill wrappers match artifacts");
        } else {
            push_decimal(&mut message, changed);
            push_str(&mut message, " Sirno skill wrappers differ from artifacts");
        }
        SkillWrapperResult { ok: changed == 0, message, records }
    }

    /// The result of installing the bundled wrappers over what was installed.
    pub fn skill_wrappers_init(&self, observed: &[(SkillWrapperSpec, SkillTargetState)]) -> (r: SkillWrapperResult)
        ensures
            r.ok,
            r.records@.len() == observed@.len(),
            forall|i: int|
                0 <= i < observed@.len() ==> record_of(
                    #[trigger] r.records@[i],
                    observed@[i].0,
                    install_status(observed@[i].1),
                    observed@[i].1 != SkillTargetState::Matches,
                ),
            r.message@ == "installed "@ + decimal(observed@.len()) + " Sirno skill wrappers ("@
                + decimal(changed_count(observed@)) + " changed)"@,
    {
        let records = observed_records(observed, true);
        let changed = count_changed(observed);
        let mut message = String::new();
        push_str(&mut message, "installed ");
        push_decimal(&mut message, records.len());
        push_str(&mut message, " Sirno skill wrappers (");
        push_decimal(&mut message, changed);
        push_str(&mut message, " changed)");
        SkillWrapperResult { ok: true, message, records }
    }
}

} // verus!
