use vstd::prelude::*;
use vstd::utf8::is_ascii_chars;

use crate::execution_state::{state_of_status_word, ExecutionState};
use crate::instance_name::{parse_instance_name, InstanceNameView, WorkloadExecutionInstanceName};
use crate::running_workloads::RunningWorkloads;

verus! {

/// How often the state of a running workload's container is looked up.
pub const STATUS_CHECK_INTERVAL_MS: u64 = 1000;

/// What the agent reads of one entry of podman's container list.
#[derive(Debug, Clone, PartialEq)]
pub struct ListContainer {
    pub id: Option<String>,
    pub names: Option<Vec<String>>,
    pub state: Option<String>,
    pub exited: Option<bool>,
    pub exit_code: Option<i32>,
}

/// The lower-case form of a string, as `str::to_lowercase` computes it
/// (Unicode's lowercase mapping).
pub uninterp spec fn lowercase(s: Seq<char>) -> Seq<char>;

/// The ASCII lower-case form of a character: `A` to `Z` become `a` to `z`,
/// every other character stays.
pub open spec fn ascii_lowercase_char(c: char) -> char {
    if 'A' <= c && c <= 'Z' {
        ((c as int) + 32) as char
    } else {
        c
    }
}

/// The ASCII lower-case form of a text, character by character.
pub open spec fn ascii_lowercase(s: Seq<char>) -> Seq<char> {
    s.map_values(|c: char| ascii_lowercase_char(c))
}

/// Calls `str::to_lowercase`. Claimed: the result is `lowercase` of the
/// argument, and on an ASCII text, whose lowercase mapping is the ASCII one
/// (`A`-`Z` to `a`-`z`, all else unchanged), it is `ascii_lowercase` of it.
/// Unicode's mapping of other characters is not stated.
#[verifier::external_body]
fn to_lowercase(s: &str) -> (res: String)
    ensures
        res@ == lowercase(s@),
        is_ascii_chars(s@) ==> res@ == ascii_lowercase(s@),
{
    s.to_lowercase()
}

/// The execution state that a container reports, given its lower-cased state
/// word, whether podman marks it as exited and its exit code.
pub open spec fn state_of_status(
    lower_status: Seq<char>,
    exited: Option<bool>,
    exit_code: Option<i32>,
) -> ExecutionState {
    let has_exited = lower_status == "exited"@ && exited == Some(true) && exit_code is Some;
    if has_exited && exit_code == Some(0i32) {
        ExecutionState::ExecSucceeded
    } else if has_exited {
        ExecutionState::ExecFailed
    } else {
        state_of_status_word(lower_status)
    }
}

/// The execution state that a listed container reports.
pub open spec fn container_execution_state(c: ListContainer) -> ExecutionState {
    match c.state {
        Some(s) => state_of_status(lowercase(s@), c.exited, c.exit_code),
        None => ExecutionState::ExecUnknown,
    }
}

/// The state of a workload's container as found by listing the containers
/// filtered by its id: no match means the container is gone; one match gives
/// that container's state; several matches, or a failed listing, say nothing.
pub open spec fn listed_status(listed: Result<Seq<ListContainer>, Seq<char>>) -> ExecutionState {
    match listed {
        Ok(cs) => if cs.len() == 1 {
            container_execution_state(cs[0])
        } else if cs.len() == 0 {
            ExecutionState::ExecRemoved
        } else {
            ExecutionState::ExecUnknown
        },
        Err(_) => ExecutionState::ExecUnknown,
    }
}

/// The texts of a list of strings.
pub open spec fn texts(v: Seq<String>) -> Seq<Seq<char>> {
    v.map_values(|s: String| s@)
}

/// The first of `names` that is the instance name of a workload of `agent`.
pub open spec fn first_instance_of_agent(agent: Seq<char>, names: Seq<Seq<char>>) -> Option<
    InstanceNameView,
>
    decreases names.len(),
{
    if names.len() == 0 {
        None
    } else {
        let parsed = parse_instance_name(names[0]);
        if parsed is Some && parsed->0.agent_name == agent {
            parsed
        } else {
            first_instance_of_agent(agent, names.drop_first())
        }
    }
}

/// The instance name under which a listed container runs a workload of `agent`.
pub open spec fn container_instance_name(agent: Seq<char>, c: ListContainer) -> Option<
    InstanceNameView,
> {
    match c.names {
        Some(names) => first_instance_of_agent(agent, texts(names@)),
        None => None,
    }
}

/// The workloads of `agent` that the listed containers run, by workload name:
/// a container counts when one of its names is an instance name of `agent` and
/// it has an id; a later container of the same workload overrides an earlier.
pub open spec fn running_workloads_of(agent: Seq<char>, cs: Seq<ListContainer>) -> Map<
    Seq<char>,
    (InstanceNameView, Seq<char>),
>
    decreases cs.len(),
{
    if cs.len() == 0 {
        Map::empty()
    } else {
        let m = running_workloads_of(agent, cs.drop_last());
        let c = cs.last();
        match container_instance_name(agent, c) {
            Some(name) => match c.id {
                Some(id) => m.insert(name.workload_name, (name, id@)),
                None => m,
            },
            None => m,
        }
    }
}

/// A name found among a container's names is a valid instance name of the
/// agent asked for.
pub proof fn lemma_first_instance_of_agent(agent: Seq<char>, names: Seq<Seq<char>>)
    ensures
        first_instance_of_agent(agent, names) matches Some(v) ==> v.is_valid() && v.agent_name
            == agent,
    decreases names.len(),
{
    if names.len() > 0 {
        let parsed = parse_instance_name(names[0]);
        if parsed is Some && parsed->0.agent_name == agent {
            let s = names[0];
            assert(exists|v: InstanceNameView| v.is_valid() && v.text() == s);
        } else {
            lemma_first_instance_of_agent(agent, names.drop_first());
        }
    }
}

/// Every workload found for an agent runs under a valid instance name of that
/// agent, and is found under its own workload name.
pub proof fn lemma_running_workloads_of_agent(agent: Seq<char>, cs: Seq<ListContainer>)
    ensures
        forall|k: Seq<char>|
            #[trigger] running_workloads_of(agent, cs).contains_key(k) ==> {
                &&& running_workloads_of(agent, cs)[k].0.is_valid()
                &&& running_workloads_of(agent, cs)[k].0.agent_name == agent
                &&& running_workloads_of(agent, cs)[k].0.workload_name == k
            },
    decreases cs.len(),
{
    if cs.len() > 0 {
        let p = cs.drop_last();
        lemma_running_workloads_of_agent(agent, p);
        let c = cs.last();
        if let Some(names) = c.names {
            lemma_first_instance_of_agent(agent, texts(names@));
        }
        let m = running_workloads_of(agent, cs);
        let pm = running_workloads_of(agent, p);
        assert forall|k: Seq<char>| #[trigger] m.contains_key(k) implies {
            &&& m[k].0.is_valid()
            &&& m[k].0.agent_name == agent
            &&& m[k].0.workload_name == k
        } by {
            if pm.contains_key(k) && m[k] == pm[k] {
            } else {
                assert(container_instance_name(agent, c) is Some);
            }
        }
    }
}

/// A container marked as exited, whose lower-cased state word is "exited",
/// has succeeded exactly when its exit code is 0, and has failed for any other
/// exit code.
pub proof fn lemma_exited_state_follows_exit_code(
    lower_status: Seq<char>,
    exited: Option<bool>,
    exit_code: Option<i32>,
)
    ensures
        lower_status == "exited"@ && exited == Some(true) ==> (exit_code matches Some(c) ==> (
        state_of_status(lower_status, exited, exit_code) == ExecutionState::ExecSucceeded <==> c
            == 0) && (c != 0 ==> state_of_status(lower_status, exited, exit_code)
            == ExecutionState::ExecFailed)),
{
}

/// A listed container whose state word lower-cases to "exited" and that is
/// marked as exited reports success exactly for exit code 0 and failure for
/// every other exit code.
pub proof fn lemma_exited_container_state(c: ListContainer)
    ensures
        c.state matches Some(s) ==> (lowercase(s@) == "exited"@ && c.exited == Some(true) ==> (
        c.exit_code matches Some(code) ==> (container_execution_state(c)
            == ExecutionState::ExecSucceeded <==> code == 0) && (code != 0
            ==> container_execution_state(c) == ExecutionState::ExecFailed))),
{
    if let Some(s) = c.state {
        lemma_exited_state_follows_exit_code(lowercase(s@), c.exited, c.exit_code);
    }
}

/// When the lookup by id finds exactly one container, the workload's state
/// is the state that container reports, exit information included.
pub proof fn lemma_single_listed_container_status(c: ListContainer)
    ensures
        listed_status(Ok(seq![c])) == container_execution_state(c),
        listed_status(Ok(Seq::<ListContainer>::empty())) == ExecutionState::ExecRemoved,
{
}

/// Container `c` runs the workload named `k` of `agent`, with `entry` holding
/// its instance name and its container id.
pub open spec fn lists_workload(
    agent: Seq<char>,
    c: ListContainer,
    k: Seq<char>,
    entry: (InstanceNameView, Seq<char>),
) -> bool {
    &&& c.id matches Some(id) && entry.1 == id@
    &&& container_instance_name(agent, c) == Some(entry.0)
    &&& entry.0.workload_name == k
}

/// Every listed container that has an id and a name that is an instance name
/// of the agent is found, under its workload name, whatever its state.
pub proof fn lemma_running_workloads_complete(agent: Seq<char>, cs: Seq<ListContainer>)
    ensures
        forall|i: int|
            0 <= i < cs.len() && (#[trigger] cs[i]).id is Some && container_instance_name(
                agent,
                cs[i],
            ) is Some ==> running_workloads_of(agent, cs).contains_key(
                container_instance_name(agent, cs[i])->0.workload_name,
            ),
    decreases cs.len(),
{
    if cs.len() > 0 {
        let p = cs.drop_last();
        lemma_running_workloads_complete(agent, p);
        assert forall|i: int|
            0 <= i < cs.len() && (#[trigger] cs[i]).id is Some && container_instance_name(
                agent,
                cs[i],
            ) is Some implies running_workloads_of(agent, cs).contains_key(
            container_instance_name(agent, cs[i])->0.workload_name,
        ) by {
            if i < cs.len() - 1 {
                assert(cs[i] == p[i]);
            }
        }
    }
}

/// Every workload found comes from a listed container of the agent that has
/// an id: the entry holds that container's instance name and id.
pub proof fn lemma_running_workloads_sound(agent: Seq<char>, cs: Seq<ListContainer>)
    ensures
        forall|k: Seq<char>|
            #[trigger] running_workloads_of(agent, cs).contains_key(k) ==> exists|i: int|
                0 <= i < cs.len() && lists_workload(
                    agent,
                    cs[i],
                    k,
                    running_workloads_of(agent, cs)[k],
                ),
    decreases cs.len(),
{
    if cs.len() > 0 {
        let p = cs.drop_last();
        lemma_running_workloads_sound(agent, p);
        let m = running_workloads_of(agent, cs);
        let pm = running_workloads_of(agent, p);
        let last = cs.len() - 1;
        assert forall|k: Seq<char>| #[trigger] m.contains_key(k) implies exists|i: int|
            0 <= i < cs.len() && lists_workload(agent, cs[i], k, m[k]) by {
            if pm.contains_key(k) && m[k] == pm[k] {
                let i = choose|i: int| 0 <= i < p.len() && lists_workload(agent, p[i], k, pm[k]);
                assert(cs[i] == p[i]);
            } else {
                assert(lists_workload(agent, cs[last], k, m[k]));
            }
        }
    }
}

/// The podman-specific decisions of the agent.
pub struct PodmanUtils {}

impl PodmanUtils {
    /// The state a container reports, from its already lower-cased state word.
    pub fn execution_state_from_status(
        lower_status: &str,
        exited: Option<bool>,
        exit_code: Option<i32>,
    ) -> (res: ExecutionState)
        ensures
            res == state_of_status(lower_status@, exited, exit_code),
            lower_status@ == "exited"@ && exited == Some(true) ==> (exit_code matches Some(c)
                ==> (res == ExecutionState::ExecSucceeded <==> c == 0) && (c != 0 ==> res
                == ExecutionState::ExecFailed)),
    {
        let status = lower_status.to_owned();
        let has_exited = status == String::from_str("exited") && exited == Some(true)
            && exit_code.is_some();
        if has_exited && exit_code == Some(0i32) {
            ExecutionState::ExecSucceeded
        } else if has_exited {
            ExecutionState::ExecFailed
        } else {
            ExecutionState::from_lowercase_status(lower_status)
        }
    }

    /// The instance name under which a listed container runs a workload of
    /// the agent `agent_name`: the first of its names that reads as an instance
    /// name whose agent is `agent_name`.
    pub fn convert_to_ankaios_instance_name(agent_name: &str, list_container: &ListContainer) -> (res:
        Option<WorkloadExecutionInstanceName>)
        ensures
            match res {
                Some(name) => container_instance_name(agent_name@, *list_container) == Some(
                    name@,
                ),
                None => container_instance_name(agent_name@, *list_container) is None,
            },
    {
        let names = match &list_container.names {
            Some(names) => names,
            None => {
                return None;
            },
        };
        let agent = agent_name.to_owned();
        let ghost all = texts(names@);
        let mut i: usize = 0;
        assert(all.skip(0) =~= all);
        while i < names.len()
            invariant
                agent@ == agent_name@,
                all == texts(names@),
                list_container.names == Some(*names),
                i <= names.len(),
                first_instance_of_agent(agent@, all.skip(i as int))
                    == first_instance_of_agent(agent@, all),
            decreases names.len() - i,
        {
            proof {
                assert(all.skip(i as int)[0] == all[i as int]);
                assert(all.skip(i as int).drop_first() =~= all.skip(i + 1));
            }
            if let Some(instance_name) = WorkloadExecutionInstanceName::new(names[i].as_str()) {
                if instance_name.agent_name == agent {
                    return Some(instance_name);
                }
            }
            i = i + 1;
        }
        proof {
            assert(all.skip(i as int).len() == 0);
            assert(all.skip(0) =~= all);
        }
        None
    }

    /// The running workloads of the agent `agent_name`, from the result of
    /// listing its containers (`Err` holds the reason the listing failed, and
    /// then no workload is found).
    pub fn list_running_workloads(
        agent_name: &str,
        listed: Result<Vec<ListContainer>, String>,
    ) -> (res: RunningWorkloads)
        ensures
            res@ == match listed {
                Ok(v) => running_workloads_of(agent_name@, v@),
                Err(_) => Map::empty(),
            },
            listed matches Ok(v) ==> forall|i: int|
                0 <= i < v@.len() && (#[trigger] v@[i]).id is Some && container_instance_name(
                    agent_name@,
                    v@[i],
                ) is Some ==> res@.contains_key(
                    container_instance_name(agent_name@, v@[i])->0.workload_name,
                ),
            listed matches Ok(v) ==> forall|k: Seq<char>|
                #[trigger] res@.contains_key(k) ==> exists|i: int|
                    0 <= i < v@.len() && lists_workload(agent_name@, v@[i], k, res@[k]),
            listed is Err ==> res@.len() == 0,
    {
        proof {
            if let Ok(v) = &listed {
                lemma_running_workloads_complete(agent_name@, v@);
                lemma_running_workloads_sound(agent_name@, v@);
            }
        }
        let mut running_workloads = RunningWorkloads::new();
        let containers = match listed {
            Ok(containers) => containers,
            Err(_) => {
                return running_workloads;
            },
        };
        let mut i: usize = 0;
        while i < containers.len()
            invariant
                i <= containers.len(),
                running_workloads@ == running_workloads_of(
                    agent_name@,
                    containers@.subrange(0, i as int),
                ),
            decreases containers.len() - i,
        {
            let container = &containers[i];
            proof {
                assert(containers@.subrange(0, i + 1).drop_last() =~= containers@.subrange(
                    0,
                    i as int,
                ));
                assert(containers@.subrange(0, i + 1).last() == containers@[i as int]);
            }
            if let Some(instance_name) = Self::convert_to_ankaios_instance_name(
                agent_name,
                container,
            ) {
                match &container.id {
                    Some(container_id) => {
                        let workload_name = instance_name.workload_name.clone();
                        running_workloads.insert(
                            workload_name,
                            (instance_name, container_id.clone()),
                        );
                    },
                    None => {},
                }
            }
            i = i + 1;
        }
        proof {
            assert(containers@.subrange(0, i as int) =~= containers@);
        }
        running_workloads
    }

    /// The execution state that a listed container reports.
    pub fn convert_podman_container_state_to_execution_state(value: ListContainer) -> (res:
        ExecutionState)
        ensures
            res == container_execution_state(value),
            value.state matches Some(status) ==> (is_ascii_chars(status@) ==> res
                == state_of_status(ascii_lowercase(status@), value.exited, value.exit_code)),
            value.state matches Some(status) ==> (lowercase(status@) == "exited"@
                && value.exited == Some(true) ==> (value.exit_code matches Some(c) ==> (res
                == ExecutionState::ExecSucceeded <==> c == 0) && (c != 0 ==> res
                == ExecutionState::ExecFailed))),
    {
        proof {
            lemma_exited_container_state(value);
        }
        match &value.state {
            Some(status) => {
                let lower = to_lowercase(status.as_str());
                Self::execution_state_from_status(lower.as_str(), value.exited, value.exit_code)
            },
            None => ExecutionState::ExecUnknown,
        }
    }

    /// The state of a workload's container from the result of listing the
    /// containers with its id (`Err` holds the reason the listing failed).
    pub fn get_status(listed: Result<Vec<ListContainer>, String>) -> (res: ExecutionState)
        ensures
            res == listed_status(
                match listed {
                    Ok(v) => Ok(v@),
                    Err(e) => Err(e@),
                },
            ),
            listed matches Ok(v) ==> (v@.len() == 1 ==> res == container_execution_state(v@[0])),
            listed matches Ok(v) ==> (v@.len() == 0 ==> res == ExecutionState::ExecRemoved),
    {
        proof {
            if let Ok(v) = &listed {
                if v@.len() == 1 {
                    lemma_single_listed_container_status(v@[0]);
                    assert(v@ =~= seq![v@[0]]);
                }
            }
        }
        match listed {
            Ok(mut containers) => {
                if containers.len() == 1 {
                    let ghost first = containers@[0];
                    let container = containers.pop().unwrap();
                    assert(container == first);
                    Self::convert_podman_container_state_to_execution_state(container)
                } else if containers.len() == 0 {
                    ExecutionState::ExecRemoved
                } else {
                    ExecutionState::ExecUnknown
                }
            },
            Err(_) => ExecutionState::ExecUnknown,
        }
    }
}

} // verus!
