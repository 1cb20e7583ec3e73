//! The decisions of the command pipeline: each command is resolved against the session's
//! state into operations, which are checked against a shadow model before they are sent.
use vstd::prelude::*;
use crate::ids::{iri_of, segment, ActivityId, AgentId, EntityId, NamespaceId};
use crate::model::{apply_op, empty_model, end_blocked, op_error, start_blocked, ProcessorError, ProvModel};
use crate::ops::{
    ActivityUses, ChronicleTransaction, CreateActivity, CreateAgent, CreateNamespace, EndActivity,
    GenerateEntity, RegisterKey, StartActivity,
};
use crate::projection::{disambiguated, NameIndex};
use crate::time::Timestamp;

verus! {

/// A request from a client.
#[derive(Debug, Clone)]
pub enum Command {
    /// `uuid` is the namespace's fresh uuid, `uuid_text` its hyphenated text.
    CreateNamespace { name: String, uuid: u128, uuid_text: String },
    CreateAgent { name: String },
    /// Makes the named agent the current one.
    UseAgent { name: String },
    /// Registers `publickey` for the named agent, or for the current one.
    RegisterKey { agent: Option<String>, publickey: String },
    CreateActivity { name: String },
    StartActivity { activity: String, agent: Option<String>, time: Timestamp },
    /// Ends the named activity, or the one started last.
    EndActivity { activity: Option<String>, agent: Option<String>, time: Timestamp },
    ActivityUse { entity: String, activity: Option<String> },
    ActivityGenerate { entity: String, activity: Option<String> },
}

/// Why a command was refused.
#[derive(Debug, Clone, Copy, PartialEq, Eq, Structural)]
pub enum PipelineError {
    NoNamespace,
    NoAgent,
    NoActivity,
    Processor(ProcessorError),
}

/// The state of one client session.
#[derive(Debug)]
pub struct Pipeline {
    pub namespace: Option<NamespaceId>,
    pub model: ProvModel,
    pub agents: NameIndex,
    pub activities: NameIndex,
    pub current_agent: Option<AgentId>,
    pub last_started: Option<ActivityId>,
}

/// The agent a command names: the named one, else the current one.
pub open spec fn resolved_agent(current: Option<AgentId>, name: Option<String>) -> Option<Seq<char>> {
    match name {
        Some(n) => Some(iri_of("agent"@, n@)),
        None => match current {
            Some(a) => Some(a@),
            None => None,
        },
    }
}

/// The activity a command names: the named one, else the one started last.
pub open spec fn resolved_activity(last: Option<ActivityId>, name: Option<String>) -> Option<Seq<char>> {
    match name {
        Some(n) => Some(iri_of("activity"@, n@)),
        None => match last {
            Some(a) => Some(a@),
            None => None,
        },
    }
}

pub open spec fn opt_id_view<T: View>(o: Option<T>) -> Option<T::V> {
    match o {
        Some(x) => Some(x@),
        None => None,
    }
}

impl Pipeline {
    /// The name indexes, the current agent and the last started activity are as in `old`.
    pub open spec fn keeps_names(&self, old: Pipeline) -> bool {
        &&& self.agents@ == old.agents@
        &&& self.activities@ == old.activities@
        &&& opt_id_view(self.current_agent) == opt_id_view(old.current_agent)
        &&& opt_id_view(self.last_started) == opt_id_view(old.last_started)
        &&& opt_id_view(self.namespace) == opt_id_view(old.namespace)
    }

    pub open spec fn wf(&self) -> bool {
        self.model.wf()
    }

    pub fn new() -> (r: Pipeline)
        ensures
            r.wf(),
            r.model@ == empty_model(),
            r.agents@.len() == 0,
            r.activities@.len() == 0,
            r.namespace is None,
            r.current_agent is None,
            r.last_started is None,
    {
        Pipeline {
            namespace: None,
            model: ProvModel::new(),
            agents: NameIndex::new(),
            activities: NameIndex::new(),
            current_agent: None,
            last_started: None,
        }
    }

    fn resolve_agent(&self, name: &Option<String>) -> (r: Option<AgentId>)
        ensures
            opt_id_view(r) == resolved_agent(self.current_agent, *name),
    {
        match name {
            Some(n) => Some(AgentId::from_name(n.as_str())),
            None => match &self.current_agent {
                Some(a) => Some(a.duplicate()),
                None => None,
            },
        }
    }

    fn resolve_activity(&self, name: &Option<String>) -> (r: Option<ActivityId>)
        ensures
            opt_id_view(r) == resolved_activity(self.last_started, *name),
    {
        match name {
            Some(n) => Some(ActivityId::from_name(n.as_str())),
            None => match &self.last_started {
                Some(a) => Some(a.duplicate()),
                None => None,
            },
        }
    }

    /// Checks `op` against the shadow model and applies it there.
    fn commit(&mut self, op: ChronicleTransaction) -> (r: Result<Vec<ChronicleTransaction>, PipelineError>)
        requires
            old(self).wf(),
        ensures
            final(self).wf(),
            final(self).namespace == old(self).namespace,
            final(self).agents == old(self).agents,
            final(self).activities == old(self).activities,
            final(self).current_agent == old(self).current_agent,
            final(self).last_started == old(self).last_started,
            match op_error(old(self).model@, op) {
                Some(e) => r == Err::<Vec<ChronicleTransaction>, PipelineError>(PipelineError::Processor(e))
                    && final(self).model@ == old(self).model@,
                None => r is Ok && r->Ok_0@ == seq![op] && final(self).model@ == apply_op(old(self).model@, op),
            },
    {
        match self.model.apply(&op) {
            Ok(_) => {
                let mut v: Vec<ChronicleTransaction> = Vec::new();
                v.push(op);
                assert(v@ =~= seq![op]);
                Ok(v)
            },
            Err(e) => Err(PipelineError::Processor(e)),
        }
    }

    /// Resolves `cmd` into operations and applies them to the shadow model.
    pub fn dispatch(&mut self, cmd: Command) -> (r: Result<Vec<ChronicleTransaction>, PipelineError>)
        requires
            old(self).wf(),
            old(self).agents@.len() < u64::MAX,
            old(self).activities@.len() < u64::MAX,
        ensures
            final(self).wf(),
            r is Ok ==> r->Ok_0@.len() <= 1,
            r is Ok && r->Ok_0@.len() == 1 ==> op_error(old(self).model@, r->Ok_0@[0]) is None
                && final(self).model@ == apply_op(old(self).model@, r->Ok_0@[0]),
            r is Ok && r->Ok_0@.len() == 0 ==> final(self).model@ == old(self).model@,
            r is Err ==> final(self).model@ == old(self).model@ && final(self).keeps_names(*old(self)),
            ({
                let ns = opt_id_view(old(self).namespace);
                let m = old(self).model@;
                match cmd {
                    Command::CreateNamespace { name, uuid, uuid_text } => {
                        let id = iri_of("ns"@, name@) + ":"@ + crate::ids::uuid_text(uuid);
                        &&& r is Ok && r->Ok_0@.len() == 1 && r->Ok_0@[0] is CreateNamespace
                        &&& r->Ok_0@[0]->CreateNamespace_0.id@ == id
                        &&& r->Ok_0@[0]->CreateNamespace_0.name@ == name@
                        &&& r->Ok_0@[0]->CreateNamespace_0.uuid@ == uuid_text@
                        &&& opt_id_view(final(self).namespace) == Some(id)
                        &&& final(self).current_agent is None && final(self).last_started is None
                        &&& final(self).agents@ == old(self).agents@
                        &&& final(self).activities@ == old(self).activities@
                    },
                    Command::CreateAgent { name } => match ns {
                        None => r == Err::<Vec<ChronicleTransaction>, PipelineError>(PipelineError::NoNamespace),
                        Some(ns) => r is Ok && r->Ok_0@.len() == 1 && r->Ok_0@[0] is CreateAgent && {
                            let o = r->Ok_0@[0]->CreateAgent_0;
                            &&& o.name@ == disambiguated(old(self).agents@, ns, name@)
                            &&& o.id@ == iri_of("agent"@, o.name@)
                            &&& o.namespace@ == ns
                            &&& final(self).agents@ == old(self).agents@.push((ns, o.name@))
                            &&& final(self).activities@ == old(self).activities@
                            &&& opt_id_view(final(self).current_agent) == opt_id_view(old(self).current_agent)
                            &&& opt_id_view(final(self).last_started) == opt_id_view(old(self).last_started)
                            &&& opt_id_view(final(self).namespace) == opt_id_view(old(self).namespace)
                        },
                    },
                    Command::UseAgent { name } => {
                        &&& r is Ok && r->Ok_0@.len() == 0
                        &&& opt_id_view(final(self).current_agent) == Some(iri_of("agent"@, name@))
                        &&& final(self).agents@ == old(self).agents@
                        &&& final(self).activities@ == old(self).activities@
                        &&& opt_id_view(final(self).last_started) == opt_id_view(old(self).last_started)
                        &&& opt_id_view(final(self).namespace) == opt_id_view(old(self).namespace)
                    },
                    Command::RegisterKey { agent, publickey } => match (ns, resolved_agent(old(self).current_agent, agent)) {
                        (None, _) => r == Err::<Vec<ChronicleTransaction>, PipelineError>(PipelineError::NoNamespace),
                        (Some(_), None) => r == Err::<Vec<ChronicleTransaction>, PipelineError>(PipelineError::NoAgent),
                        (Some(ns), Some(id)) => r is Ok && r->Ok_0@.len() == 1 && r->Ok_0@[0] is RegisterKey && {
                            let o = r->Ok_0@[0]->RegisterKey_0;
                            &&& o.namespace@ == ns && o.id@ == id && o.publickey@ == publickey@
                            &&& o.name@ == segment(id, 2)
                            &&& final(self).keeps_names(*old(self))
                        },
                    },
                    Command::CreateActivity { name } => match ns {
                        None => r == Err::<Vec<ChronicleTransaction>, PipelineError>(PipelineError::NoNamespace),
                        Some(ns) => r is Ok && r->Ok_0@.len() == 1 && r->Ok_0@[0] is CreateActivity && {
                            let o = r->Ok_0@[0]->CreateActivity_0;
                            &&& o.name@ == disambiguated(old(self).activities@, ns, name@)
                            &&& o.id@ == iri_of("activity"@, o.name@)
                            &&& o.namespace@ == ns
                            &&& final(self).activities@ == old(self).activities@.push((ns, o.name@))
                            &&& final(self).agents@ == old(self).agents@
                            &&& opt_id_view(final(self).current_agent) == opt_id_view(old(self).current_agent)
                            &&& opt_id_view(final(self).last_started) == opt_id_view(old(self).last_started)
                            &&& opt_id_view(final(self).namespace) == opt_id_view(old(self).namespace)
                        },
                    },
                    Command::StartActivity { activity, agent, time } => {
                        let id = iri_of("activity"@, activity@);
                        match (ns, resolved_agent(old(self).current_agent, agent)) {
                            (None, _) => r == Err::<Vec<ChronicleTransaction>, PipelineError>(PipelineError::NoNamespace),
                            (Some(_), None) => r == Err::<Vec<ChronicleTransaction>, PipelineError>(PipelineError::NoAgent),
                            (Some(ns), Some(ag)) => if start_blocked(m, (ns, id), time) {
                                r == Err::<Vec<ChronicleTransaction>, PipelineError>(
                                    PipelineError::Processor(ProcessorError::ConstraintViolation))
                            } else {
                                r is Ok && r->Ok_0@.len() == 1 && r->Ok_0@[0] is StartActivity && {
                                    let o = r->Ok_0@[0]->StartActivity_0;
                                    &&& o.namespace@ == ns && o.id@ == id && o.agent@ == ag && o.time == time
                                    &&& opt_id_view(final(self).last_started) == Some(id)
                                    &&& final(self).agents@ == old(self).agents@
                                    &&& final(self).activities@ == old(self).activities@
                                    &&& opt_id_view(final(self).current_agent) == opt_id_view(old(self).current_agent)
                                    &&& opt_id_view(final(self).namespace) == opt_id_view(old(self).namespace)
                                }
                            },
                        }
                    },
                    Command::EndActivity { activity, agent, time } => match (
                        ns,
                        resolved_activity(old(self).last_started, activity),
                        resolved_agent(old(self).current_agent, agent),
                    ) {
                        (None, _, _) => r == Err::<Vec<ChronicleTransaction>, PipelineError>(PipelineError::NoNamespace),
                        (Some(_), None, _) => r == Err::<Vec<ChronicleTransaction>, PipelineError>(PipelineError::NoActivity),
                        (Some(_), Some(_), None) => r == Err::<Vec<ChronicleTransaction>, PipelineError>(PipelineError::NoAgent),
                        (Some(ns), Some(id), Some(ag)) => if end_blocked(m, (ns, id), time) {
                            r == Err::<Vec<ChronicleTransaction>, PipelineError>(
                                PipelineError::Processor(ProcessorError::ConstraintViolation))
                        } else {
                            r is Ok && r->Ok_0@.len() == 1 && r->Ok_0@[0] is EndActivity && {
                                let o = r->Ok_0@[0]->EndActivity_0;
                                &&& o.namespace@ == ns && o.id@ == id && o.agent@ == ag && o.time == time
                                &&& final(self).keeps_names(*old(self))
                            }
                        },
                    },
                    Command::ActivityUse { entity, activity } => match (ns, resolved_activity(old(self).last_started, activity)) {
                        (None, _) => r == Err::<Vec<ChronicleTransaction>, PipelineError>(PipelineError::NoNamespace),
                        (Some(_), None) => r == Err::<Vec<ChronicleTransaction>, PipelineError>(PipelineError::NoActivity),
                        (Some(ns), Some(act)) => r is Ok && r->Ok_0@.len() == 1 && r->Ok_0@[0] is ActivityUses && {
                            let o = r->Ok_0@[0]->ActivityUses_0;
                            &&& o.namespace@ == ns && o.id@ == iri_of("entity"@, entity@) && o.activity@ == act
                            &&& final(self).keeps_names(*old(self))
                        },
                    },
                    Command::ActivityGenerate { entity, activity } => match (ns, resolved_activity(old(self).last_started, activity)) {
                        (None, _) => r == Err::<Vec<ChronicleTransaction>, PipelineError>(PipelineError::NoNamespace),
                        (Some(_), None) => r == Err::<Vec<ChronicleTransaction>, PipelineError>(PipelineError::NoActivity),
                        (Some(ns), Some(act)) => r is Ok && r->Ok_0@.len() == 1 && r->Ok_0@[0] is GenerateEntity && {
                            let o = r->Ok_0@[0]->GenerateEntity_0;
                            &&& o.namespace@ == ns && o.id@ == iri_of("entity"@, entity@) && o.activity@ == act
                            &&& final(self).keeps_names(*old(self))
                        },
                    },
                }
            }),
    {
        match cmd {
            Command::CreateNamespace { name, uuid, uuid_text } => {
                let id = NamespaceId::from_uuid(name.as_str(), uuid);
                self.namespace = Some(id.duplicate());
                self.current_agent = None;
                self.last_started = None;
                let op = ChronicleTransaction::CreateNamespace(CreateNamespace { id, name, uuid: uuid_text });
                match self.commit(op) {
                    Ok(ops) => Ok(ops),
                    Err(e) => {
                        assert(false);
                        Err(e)
                    },
                }
            },
            Command::CreateAgent { name } => {
                let ns = match &self.namespace {
                    Some(ns) => ns.duplicate(),
                    None => {
                        return Err(PipelineError::NoNamespace);
                    },
                };
                let name = self.agents.add(&ns.0, &name);
                let op = ChronicleTransaction::CreateAgent(CreateAgent {
                    namespace: ns,
                    id: AgentId::from_name(name.as_str()),
                    name,
                });
                self.commit(op)
            },
            Command::UseAgent { name } => {
                self.current_agent = Some(AgentId::from_name(name.as_str()));
                Ok(Vec::new())
            },
            Command::RegisterKey { agent, publickey } => {
                let ns = match &self.namespace {
                    Some(ns) => ns.duplicate(),
                    None => {
                        return Err(PipelineError::NoNamespace);
                    },
                };
                let id = match self.resolve_agent(&agent) {
                    Some(a) => a,
                    None => {
                        return Err(PipelineError::NoAgent);
                    },
                };
                let name = id.decompose().to_owned();
                self.commit(ChronicleTransaction::RegisterKey(RegisterKey { namespace: ns, id, publickey, name }))
            },
            Command::CreateActivity { name } => {
                let ns = match &self.namespace {
                    Some(ns) => ns.duplicate(),
                    None => {
                        return Err(PipelineError::NoNamespace);
                    },
                };
                let name = self.activities.add(&ns.0, &name);
                let op = ChronicleTransaction::CreateActivity(CreateActivity {
                    namespace: ns,
                    id: ActivityId::from_name(name.as_str()),
                    name,
                });
                self.commit(op)
            },
            Command::StartActivity { activity, agent, time } => {
                let ns = match &self.namespace {
                    Some(ns) => ns.duplicate(),
                    None => {
                        return Err(PipelineError::NoNamespace);
                    },
                };
                let agent = match self.resolve_agent(&agent) {
                    Some(a) => a,
                    None => {
                        return Err(PipelineError::NoAgent);
                    },
                };
                let id = ActivityId::from_name(activity.as_str());
                let last = id.duplicate();
                let r = self.commit(ChronicleTransaction::StartActivity(StartActivity { namespace: ns, id, agent, time }));
                if r.is_ok() {
                    self.last_started = Some(last);
                }
                r
            },
            Command::EndActivity { activity, agent, time } => {
                let ns = match &self.namespace {
                    Some(ns) => ns.duplicate(),
                    None => {
                        return Err(PipelineError::NoNamespace);
                    },
                };
                let id = match self.resolve_activity(&activity) {
                    Some(a) => a,
                    None => {
                        return Err(PipelineError::NoActivity);
                    },
                };
                let agent = match self.resolve_agent(&agent) {
                    Some(a) => a,
                    None => {
                        return Err(PipelineError::NoAgent);
                    },
                };
                self.commit(ChronicleTransaction::EndActivity(EndActivity { namespace: ns, id, agent, time }))
            },
            Command::ActivityUse { entity, activity } => {
                let ns = match &self.namespace {
                    Some(ns) => ns.duplicate(),
                    None => {
                        return Err(PipelineError::NoNamespace);
                    },
                };
                let activity = match self.resolve_activity(&activity) {
                    Some(a) => a,
                    None => {
                        return Err(PipelineError::NoActivity);
                    },
                };
                self.commit(ChronicleTransaction::ActivityUses(ActivityUses {
                    namespace: ns,
                    id: EntityId::from_name(entity.as_str()),
                    activity,
                }))
            },
            Command::ActivityGenerate { entity, activity } => {
                let ns = match &self.namespace {
                    Some(ns) => ns.duplicate(),
                    None => {
                        return Err(PipelineError::NoNamespace);
                    },
                };
                let activity = match self.resolve_activity(&activity) {
                    Some(a) => a,
                    None => {
                        return Err(PipelineError::NoActivity);
                    },
                };
                self.commit(ChronicleTransaction::GenerateEntity(GenerateEntity {
                    namespace: ns,
                    id: EntityId::from_name(entity.as_str()),
                    activity,
                }))
            },
        }
    }
}

} // verus!
