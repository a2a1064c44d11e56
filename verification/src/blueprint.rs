//! The blueprint engine: validation, default merging and template
//! interpolation that turn a named multi-slot template into fully
//! specified slot configurations.

use vstd::prelude::*;

verus! {

use vstd::string::StringExecFns;
use crate::errors::OrchestratorError;
use crate::models::{
    opt_str,
    Blueprint,
    BlueprintAgentConfig,
    BlueprintSlotEntry,
    ResolvedBlueprintSlot,
    Slot,
};
use crate::text::{
    chars_of,
    dec_str,
    dec_string,
    join_sep,
    join_with,
    replace_all,
    replace_seq,
    string_from_chars,
};

/// The blueprint's defaults carry a usable source: present and non-empty,
/// an empty string counting as missing.
pub open spec fn has_default_source(bp: &Blueprint) -> bool {
    &&& bp.defaults is Some
    &&& bp.defaults->0.source is Some
    &&& bp.defaults->0.source->0@.len() > 0
}

/// The entry resolves a non-empty source: its own, or the default one.
pub open spec fn entry_source_ok(bp: &Blueprint, e: BlueprintSlotEntry) -> bool {
    (e.source is Some && e.source->0@.len() > 0) || has_default_source(bp)
}

/// The source an entry resolves to: its own when non-empty, else the
/// non-empty default.
pub open spec fn merged_source(bp: &Blueprint, e: BlueprintSlotEntry) -> Option<Seq<char>> {
    if e.source is Some && e.source->0@.len() > 0 {
        Some(e.source->0@)
    } else if has_default_source(bp) {
        Some(bp.defaults->0.source->0@)
    } else {
        None
    }
}

/// The auto-start flag an entry resolves to.
pub open spec fn merged_auto_start(bp: &Blueprint, e: BlueprintSlotEntry) -> bool {
    if e.auto_start_aspire is Some {
        e.auto_start_aspire->0
    } else if bp.defaults is Some && bp.defaults->0.auto_start_aspire is Some {
        bp.defaults->0.auto_start_aspire->0
    } else {
        false
    }
}

/// The auto-spawn flag an entry resolves to.
pub open spec fn merged_auto_spawn(bp: &Blueprint, e: BlueprintSlotEntry) -> bool {
    if e.auto_spawn_agent is Some {
        e.auto_spawn_agent->0
    } else if bp.defaults is Some && bp.defaults->0.auto_spawn_agent is Some {
        bp.defaults->0.auto_spawn_agent->0
    } else {
        false
    }
}

/// The default agent configuration, if the blueprint has one.
pub open spec fn default_agent(bp: &Blueprint) -> Option<BlueprintAgentConfig> {
    if bp.defaults is Some {
        bp.defaults->0.agent
    } else {
        None
    }
}

/// The prompt template an entry resolves to: its own field wins over the
/// default's, field by field.
pub open spec fn merged_prompt_template(bp: &Blueprint, e: BlueprintSlotEntry) -> Option<
    Seq<char>,
> {
    if e.agent is Some && e.agent->0.prompt_template is Some {
        Some(e.agent->0.prompt_template->0@)
    } else if default_agent(bp) is Some {
        opt_str(default_agent(bp)->0.prompt_template)
    } else {
        None
    }
}

/// The allowed-tools string an entry resolves to.
pub open spec fn merged_allowed_tools(bp: &Blueprint, e: BlueprintSlotEntry) -> Option<Seq<char>> {
    if e.agent is Some && e.agent->0.allowed_tools is Some {
        Some(e.agent->0.allowed_tools->0@)
    } else if default_agent(bp) is Some {
        opt_str(default_agent(bp)->0.allowed_tools)
    } else {
        None
    }
}

/// The turn limit an entry resolves to.
pub open spec fn merged_max_turns(bp: &Blueprint, e: BlueprintSlotEntry) -> Option<u32> {
    if e.agent is Some && e.agent->0.max_turns is Some {
        e.agent->0.max_turns
    } else if default_agent(bp) is Some {
        default_agent(bp)->0.max_turns
    } else {
        None
    }
}

/// The branch used for template interpolation: the entry's, else `main`.
pub open spec fn branch_or_main(e: BlueprintSlotEntry) -> Seq<char> {
    if e.branch is Some {
        e.branch->0@
    } else {
        "main"@
    }
}

/// The template with `{slot_name}` then `{branch}` substituted.
pub open spec fn interpolate_seq(t: Seq<char>, slot_name: Seq<char>, branch: Seq<char>) -> Seq<
    char,
> {
    replace_seq(replace_seq(t, "{slot_name}"@, slot_name), "{branch}"@, branch)
}

/// The prompt an entry resolves to: the merged template, interpolated.
pub open spec fn resolved_prompt(bp: &Blueprint, e: BlueprintSlotEntry) -> Option<Seq<char>> {
    match merged_prompt_template(bp, e) {
        Some(t) => Some(interpolate_seq(t, e.name@, branch_or_main(e))),
        None => None,
    }
}

/// The blueprint passes validation: it is named, has at least one entry,
/// and every entry is named and can resolve a source.
pub open spec fn validate_ok(bp: &Blueprint) -> bool {
    &&& bp.name@.len() > 0
    &&& bp.slots@.len() > 0
    &&& forall|i: int|
        0 <= i < bp.slots@.len() ==> bp.slots@[i].name@.len() > 0 && entry_source_ok(
            bp,
            #[trigger] bp.slots@[i],
        )
}

/// The finding reported for an entry without a name.
pub open spec fn empty_name_msg(i: nat) -> Seq<char> {
    "Slot "@ + dec_str(i) + " has empty name"@
}

/// The finding reported for an entry without any source.
pub open spec fn no_source_msg(name: Seq<char>) -> Seq<char> {
    "Slot '"@ + name + "' has no source and no default source"@
}

/// The findings for entry `i` of the blueprint.
pub open spec fn entry_msgs(bp: &Blueprint, i: int) -> Seq<Seq<char>> {
    (if bp.slots@[i].name@.len() == 0 {
        seq![empty_name_msg(i as nat)]
    } else {
        Seq::empty()
    }) + (if !entry_source_ok(bp, bp.slots@[i]) {
        seq![no_source_msg(bp.slots@[i].name@)]
    } else {
        Seq::empty()
    })
}

/// The findings for the first `n` entries of the blueprint.
pub open spec fn slots_msgs(bp: &Blueprint, n: int) -> Seq<Seq<char>>
    decreases n,
{
    if n <= 0 {
        Seq::empty()
    } else {
        slots_msgs(bp, n - 1) + entry_msgs(bp, n - 1)
    }
}

/// All findings of validation, in report order.
pub open spec fn validate_msgs(bp: &Blueprint) -> Seq<Seq<char>> {
    (if bp.name@.len() == 0 {
        seq!["Blueprint name is required"@]
    } else {
        Seq::empty()
    }) + (if bp.slots@.len() == 0 {
        seq!["Blueprint must have at least one slot"@]
    } else {
        Seq::empty()
    }) + slots_msgs(bp, bp.slots@.len() as int)
}

/// The first `n` entries produce no finding exactly when each is named and
/// can resolve a source.
proof fn lemma_slots_msgs_empty(bp: &Blueprint, n: int)
    requires
        0 <= n <= bp.slots@.len(),
    ensures
        (slots_msgs(bp, n).len() == 0) <==> (forall|i: int|
            0 <= i < n ==> bp.slots@[i].name@.len() > 0 && entry_source_ok(
                bp,
                #[trigger] bp.slots@[i],
            )),
    decreases n,
{
    if n > 0 {
        lemma_slots_msgs_empty(bp, n - 1);
    }
}

/// Validation never passes while a finding stands, and always passes
/// without one.
pub proof fn lemma_validate_ok_iff_no_msgs(bp: &Blueprint)
    ensures
        validate_ok(bp) <==> validate_msgs(bp).len() == 0,
{
    lemma_slots_msgs_empty(bp, bp.slots@.len() as int);
}

/// Check a blueprint for completeness; the error lists one finding per
/// problem, in report order.
pub fn validate(blueprint: &Blueprint) -> (r: Result<(), Vec<String>>)
    ensures
        r is Ok <==> validate_ok(blueprint),
        r is Err ==> (r->Err_0@.map_values(|s: String| s@) == validate_msgs(blueprint)
            && r->Err_0@.len() > 0),
{
    let mut msgs: Vec<String> = Vec::new();
    if blueprint.name.as_str().is_empty() {
        msgs.push(String::from_str("Blueprint name is required"));
    }
    if blueprint.slots.len() == 0 {
        msgs.push(String::from_str("Blueprint must have at least one slot"));
    }
    let ghost header = msgs@.map_values(|s: String| s@);
    assert(header =~= (if blueprint.name@.len() == 0 {
        seq!["Blueprint name is required"@]
    } else {
        Seq::<Seq<char>>::empty()
    }) + (if blueprint.slots@.len() == 0 {
        seq!["Blueprint must have at least one slot"@]
    } else {
        Seq::<Seq<char>>::empty()
    }));

    let has_default = match &blueprint.defaults {
        Some(d) => match &d.source {
            Some(src) => !src.as_str().is_empty(),
            None => false,
        },
        None => false,
    };
    let n = blueprint.slots.len();
    let mut i: usize = 0;
    assert(msgs@.map_values(|s: String| s@) =~= header + slots_msgs(blueprint, 0));
    while i < n
        invariant
            i <= n,
            n == blueprint.slots@.len(),
            has_default == has_default_source(blueprint),
            msgs@.map_values(|s: String| s@) == header + slots_msgs(blueprint, i as int),
            header == (if blueprint.name@.len() == 0 {
                seq!["Blueprint name is required"@]
            } else {
                Seq::<Seq<char>>::empty()
            }) + (if blueprint.slots@.len() == 0 {
                seq!["Blueprint must have at least one slot"@]
            } else {
                Seq::<Seq<char>>::empty()
            }),
        decreases n - i,
    {
        let entry = &blueprint.slots[i];
        let ghost base = msgs@.map_values(|s: String| s@);
        if entry.name.as_str().is_empty() {
            let mut m = String::from_str("Slot ");
            let d = dec_string(i as u64);
            m.append(d.as_str());
            m.append(" has empty name");
            assert(m@ == empty_name_msg(i as nat));
            msgs.push(m);
            assert(msgs@.map_values(|s: String| s@) =~= base.push(empty_name_msg(i as nat)));
        }
        let ghost mid = msgs@.map_values(|s: String| s@);
        assert(mid =~= base + (if blueprint.slots@[i as int].name@.len() == 0 {
            seq![empty_name_msg(i as nat)]
        } else {
            Seq::<Seq<char>>::empty()
        }));
        let own_source = match &entry.source {
            Some(src) => !src.as_str().is_empty(),
            None => false,
        };
        if !own_source && !has_default {
            let mut m = String::from_str("Slot '");
            m.append(entry.name.as_str());
            m.append("' has no source and no default source");
            assert(m@ == no_source_msg(blueprint.slots@[i as int].name@));
            msgs.push(m);
            assert(msgs@.map_values(|s: String| s@) =~= mid.push(
                no_source_msg(blueprint.slots@[i as int].name@),
            ));
        }
        assert(msgs@.map_values(|s: String| s@) =~= mid + (if !entry_source_ok(
            blueprint,
            blueprint.slots@[i as int],
        ) {
            seq![no_source_msg(blueprint.slots@[i as int].name@)]
        } else {
            Seq::<Seq<char>>::empty()
        }));
        assert(msgs@.map_values(|s: String| s@) =~= header + slots_msgs(blueprint, i + 1));
        i += 1;
    }
    proof {
        lemma_validate_ok_iff_no_msgs(blueprint);
    }
    if msgs.len() == 0 {
        assert(validate_msgs(blueprint) =~= header + slots_msgs(blueprint, n as int));
        Ok(())
    } else {
        assert(msgs@.map_values(|s: String| s@) =~= validate_msgs(blueprint));
        Err(msgs)
    }
}

/// Substitute `{slot_name}` and then `{branch}` in a template.
pub fn interpolate(template: &str, slot_name: &str, branch: &str) -> (r: String)
    ensures
        r@ == interpolate_seq(template@, slot_name@, branch@),
{
    proof {
        reveal_strlit("{slot_name}");
        reveal_strlit("{branch}");
    }
    let t = chars_of(template);
    let sn = chars_of("{slot_name}");
    let sv = chars_of(slot_name);
    let bn = chars_of("{branch}");
    let bv = chars_of(branch);
    let pass1 = replace_all(&t, &sn, &sv);
    let pass2 = replace_all(&pass1, &bn, &bv);
    string_from_chars(&pass2)
}

/// Merge agent configurations: a field of the entry wins over the same
/// field of the defaults.
pub fn merge_agent_config(default: Option<&BlueprintAgentConfig>, slot: Option<
    &BlueprintAgentConfig,
>) -> (r: Option<BlueprintAgentConfig>)
    ensures
        r is Some <==> (default is Some || slot is Some),
        r is Some ==> {
            let m = r->0;
            &&& opt_str(m.prompt_template) == (if slot is Some && slot->0.prompt_template is Some {
                opt_str(slot->0.prompt_template)
            } else if default is Some {
                opt_str(default->0.prompt_template)
            } else {
                None::<Seq<char>>
            })
            &&& opt_str(m.allowed_tools) == (if slot is Some && slot->0.allowed_tools is Some {
                opt_str(slot->0.allowed_tools)
            } else if default is Some {
                opt_str(default->0.allowed_tools)
            } else {
                None::<Seq<char>>
            })
            &&& m.max_turns == (if slot is Some && slot->0.max_turns is Some {
                slot->0.max_turns
            } else if default is Some {
                default->0.max_turns
            } else {
                None::<u32>
            })
        },
{
    match (default, slot) {
        (None, None) => None,
        (Some(d), None) => Some(d.clone_config()),
        (None, Some(s)) => Some(s.clone_config()),
        (Some(d), Some(s)) => Some(
            BlueprintAgentConfig {
                prompt_template: clone_opt_string(&s.prompt_template, &d.prompt_template),
                allowed_tools: clone_opt_string(&s.allowed_tools, &d.allowed_tools),
                max_turns: if s.max_turns.is_some() {
                    s.max_turns
                } else {
                    d.max_turns
                },
            },
        ),
    }
}

/// The first option if it holds a value, else the second, cloned.
fn clone_opt_string(first: &Option<String>, second: &Option<String>) -> (r: Option<String>)
    ensures
        opt_str(r) == (if first is Some {
            opt_str(*first)
        } else {
            opt_str(*second)
        }),
{
    match first {
        Some(s) => Some(s.clone()),
        None => match second {
            Some(s) => Some(s.clone()),
            None => None,
        },
    }
}

impl BlueprintAgentConfig {
    /// A field-for-field copy.
    fn clone_config(&self) -> (r: BlueprintAgentConfig)
        ensures
            opt_str(r.prompt_template) == opt_str(self.prompt_template),
            opt_str(r.allowed_tools) == opt_str(self.allowed_tools),
            r.max_turns == self.max_turns,
    {
        BlueprintAgentConfig {
            prompt_template: match &self.prompt_template {
                Some(s) => Some(s.clone()),
                None => None,
            },
            allowed_tools: match &self.allowed_tools {
                Some(s) => Some(s.clone()),
                None => None,
            },
            max_turns: self.max_turns,
        }
    }
}

/// One entry fully resolved: every field the spec fixes for it.
pub open spec fn resolved_entry_ok(bp: &Blueprint, e: BlueprintSlotEntry, r: ResolvedBlueprintSlot,
) -> bool {
    &&& r.name@ == e.name@
    &&& Some(r.source@) == merged_source(bp, e)
    &&& opt_str(r.branch) == opt_str(e.branch)
    &&& r.auto_start_aspire == merged_auto_start(bp, e)
    &&& r.auto_spawn_agent == merged_auto_spawn(bp, e)
    &&& opt_str(r.prompt) == resolved_prompt(bp, e)
    &&& opt_str(r.allowed_tools) == merged_allowed_tools(bp, e)
    &&& r.max_turns == merged_max_turns(bp, e)
}

/// Resolve a blueprint into one fully specified configuration per entry.
/// Succeeds exactly when validation passes; the error joins the findings.
pub fn resolve(blueprint: &Blueprint) -> (r: Result<Vec<ResolvedBlueprintSlot>, OrchestratorError>)
    ensures
        r is Ok <==> validate_ok(blueprint),
        r is Ok ==> {
            let v = r->Ok_0@;
            &&& v.len() == blueprint.slots@.len()
            &&& forall|i: int|
                0 <= i < v.len() ==> resolved_entry_ok(
                    blueprint,
                    blueprint.slots@[i],
                    #[trigger] v[i],
                )
        },
        r is Err ==> (r->Err_0 matches OrchestratorError::BlueprintValidation(m) && m@ == join_sep(
            validate_msgs(blueprint),
            "; "@,
        )),
{
    if let Err(errors) = validate(blueprint) {
        let joined = join_with(&errors, "; ");
        return Err(OrchestratorError::BlueprintValidation(joined));
    }
    let default_agent_ref: Option<&BlueprintAgentConfig> = match &blueprint.defaults {
        Some(d) => match &d.agent {
            Some(a) => Some(a),
            None => None,
        },
        None => None,
    };
    let n = blueprint.slots.len();
    let mut resolved: Vec<ResolvedBlueprintSlot> = Vec::new();
    let mut i: usize = 0;
    while i < n
        invariant
            i <= n,
            n == blueprint.slots@.len(),
            validate_ok(blueprint),
            resolved@.len() == i,
            (match default_agent_ref {
                Some(a) => default_agent(blueprint) is Some && *a == default_agent(blueprint)->0,
                None => default_agent(blueprint) is None,
            }),
            forall|j: int|
                0 <= j < i ==> resolved_entry_ok(
                    blueprint,
                    blueprint.slots@[j],
                    #[trigger] resolved@[j],
                ),
        decreases n - i,
    {
        let entry = &blueprint.slots[i];
        assert(entry_source_ok(blueprint, blueprint.slots@[i as int]));
        let own_source = match &entry.source {
            Some(src) => !src.as_str().is_empty(),
            None => false,
        };
        let source: String = if own_source {
            match &entry.source {
                Some(s) => s.clone(),
                None => {
                    proof {
                        assert(false);
                    }
                    String::new()
                },
            }
        } else {
            match &blueprint.defaults {
                Some(d) => match &d.source {
                    Some(s) => s.clone(),
                    None => {
                        proof {
                            assert(false);
                        }
                        String::new()
                    },
                },
                None => {
                    proof {
                        assert(false);
                    }
                    String::new()
                },
            }
        };

        let branch: Option<String> = match &entry.branch {
            Some(b) => Some(b.clone()),
            None => None,
        };

        let auto_start_aspire: bool = match entry.auto_start_aspire {
            Some(b) => b,
            None => match &blueprint.defaults {
                Some(d) => match d.auto_start_aspire {
                    Some(b) => b,
                    None => false,
                },
                None => false,
            },
        };
        let auto_spawn_agent: bool = match entry.auto_spawn_agent {
            Some(b) => b,
            None => match &blueprint.defaults {
                Some(d) => match d.auto_spawn_agent {
                    Some(b) => b,
                    None => false,
                },
                None => false,
            },
        };

        let slot_agent_ref: Option<&BlueprintAgentConfig> = match &entry.agent {
            Some(a) => Some(a),
            None => None,
        };
        let agent_config = merge_agent_config(default_agent_ref, slot_agent_ref);

        let prompt: Option<String> = match &agent_config {
            Some(cfg) => match &cfg.prompt_template {
                Some(t) => {
                    let b: &str = match &branch {
                        Some(b) => b.as_str(),
                        None => "main",
                    };
                    Some(interpolate(t.as_str(), entry.name.as_str(), b))
                },
                None => None,
            },
            None => None,
        };
        let allowed_tools: Option<String> = match &agent_config {
            Some(cfg) => match &cfg.allowed_tools {
                Some(t) => Some(t.clone()),
                None => None,
            },
            None => None,
        };
        let max_turns: Option<u32> = match &agent_config {
            Some(cfg) => cfg.max_turns,
            None => None,
        };

        let item = ResolvedBlueprintSlot {
            name: entry.name.clone(),
            source,
            branch,
            auto_start_aspire,
            auto_spawn_agent,
            prompt,
            allowed_tools,
            max_turns,
        };
        assert(resolved_entry_ok(blueprint, blueprint.slots@[i as int], item));
        resolved.push(item);
        i += 1;
    }
    Ok(resolved)
}

/// Relating resolution to validation: resolution succeeds on exactly the
/// blueprints that validation passes, and then every entry has resolved a
/// non-empty source. This is stated over the same spec functions the two
/// functions' contracts use.
pub proof fn lemma_resolve_iff_validate(bp: &Blueprint)
    ensures
        validate_ok(bp) ==> forall|i: int|
            0 <= i < bp.slots@.len() ==> (merged_source(bp, #[trigger] bp.slots@[i])
                matches Some(src) && src.len() > 0),
        (validate_ok(bp) && validate_msgs(bp).len() == 0) || (!validate_ok(bp) && validate_msgs(
            bp,
        ).len() > 0),
{
    lemma_validate_ok_iff_no_msgs(bp);
}

/// Build a blueprint that snapshots the given slots: one entry per slot,
/// carrying its branch and source, with no defaults and no overrides.
pub fn snapshot_from_slots(name: &str, description: Option<&str>, slots: &Vec<Slot>) -> (r:
    Blueprint)
    ensures
        r.name@ == name@,
        (match description {
            Some(d) => r.description is Some && r.description->0@ == d@,
            None => r.description is None,
        }),
        r.defaults is None,
        r.slots@.len() == slots@.len(),
        forall|i: int|
            0 <= i < slots@.len() ==> {
                let e = #[trigger] r.slots@[i];
                &&& e.name@ == slots@[i].name@
                &&& e.branch is Some && e.branch->0@ == slots@[i].branch@
                &&& e.source is Some && e.source->0@ == slots@[i].repo_path@
                &&& e.auto_start_aspire is None
                &&& e.auto_spawn_agent is None
                &&& e.agent is None
            },
{
    let mut entries: Vec<BlueprintSlotEntry> = Vec::new();
    let n = slots.len();
    let mut i: usize = 0;
    while i < n
        invariant
            i <= n,
            n == slots@.len(),
            entries@.len() == i,
            forall|j: int|
                0 <= j < i ==> {
                    let e = #[trigger] entries@[j];
                    &&& e.name@ == slots@[j].name@
                    &&& e.branch is Some && e.branch->0@ == slots@[j].branch@
                    &&& e.source is Some && e.source->0@ == slots@[j].repo_path@
                    &&& e.auto_start_aspire is None
                    &&& e.auto_spawn_agent is None
                    &&& e.agent is None
                },
        decreases n - i,
    {
        let s = &slots[i];
        entries.push(
            BlueprintSlotEntry {
                name: s.name.clone(),
                branch: Some(s.branch.clone()),
                source: Some(s.repo_path.clone()),
                auto_start_aspire: None,
                auto_spawn_agent: None,
                agent: None,
            },
        );
        i += 1;
    }
    Blueprint {
        name: String::from_str(name),
        description: match description {
            Some(d) => Some(String::from_str(d)),
            None => None,
        },
        defaults: None,
        slots: entries,
    }
}

/// Knows where blueprint documents live under the slots root.
pub struct BlueprintStore {
    pub blueprints_dir: String,
}

impl BlueprintStore {
    /// A store rooted at `{slots_directory}/blueprints`.
    pub fn new(slots_directory: &str) -> (r: BlueprintStore)
        ensures
            r.blueprints_dir@ == slots_directory@ + "/blueprints"@,
    {
        let mut d = String::from_str(slots_directory);
        d.append("/blueprints");
        BlueprintStore { blueprints_dir: d }
    }

    /// The file path of the blueprint with the given name.
    pub fn path_for(&self, name: &str) -> (r: String)
        ensures
            r@ == self.blueprints_dir@ + "/"@ + name@ + ".yaml"@,
    {
        let mut p = self.blueprints_dir.clone();
        p.append("/");
        p.append(name);
        p.append(".yaml");
        p
    }
}

} // verus!
