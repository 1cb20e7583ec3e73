use chronicle::model::ProcessorError;
use chronicle::ops::ChronicleTransaction;
use chronicle::pipeline::{Command, Pipeline, PipelineError};
use chronicle::time::Timestamp;

fn session() -> Pipeline {
    let mut p = Pipeline::new();
    let ops = p
        .dispatch(Command::CreateNamespace {
            name: "testns".to_string(),
            uuid: 0x5a0ab5b8_eeb7_4812_9fe3_6dd69bd20cea,
            uuid_text: "5a0ab5b8-eeb7-4812-9fe3-6dd69bd20cea".to_string(),
        })
        .unwrap();
    match &ops[0] {
        ChronicleTransaction::CreateNamespace(o) => {
            assert_eq!(o.id.as_str(), "chronicle:ns:testns:5a0ab5b8-eeb7-4812-9fe3-6dd69bd20cea")
        }
        _ => panic!("expected a namespace"),
    }
    p
}

fn time() -> Timestamp {
    Timestamp::new(2014, 7, 8, 9, 10, 11).unwrap()
}

#[test]
fn create_namespace() {
    let p = session();
    assert_eq!(p.model.namespaces.len(), 1);
}

#[test]
fn create_agent_and_key() {
    let mut p = session();
    p.dispatch(Command::CreateAgent { name: "testagent".to_string() }).unwrap();
    assert_eq!(p.dispatch(Command::RegisterKey { agent: None, publickey: "aa".to_string() }).err(), Some(PipelineError::NoAgent));
    assert!(p.dispatch(Command::UseAgent { name: "testagent".to_string() }).unwrap().is_empty());
    p.dispatch(Command::RegisterKey { agent: None, publickey: "aa".to_string() }).unwrap();
    assert_eq!(p.model.agents.len(), 1);
    assert_eq!(p.model.agents[0].id.as_str(), "chronicle:agent:testagent");
    assert_eq!(p.model.agents[0].publickey, Some("aa".to_string()));
}

#[test]
fn start_and_end_the_last_started_activity() {
    let mut p = session();
    p.dispatch(Command::UseAgent { name: "testagent".to_string() }).unwrap();
    assert_eq!(p.dispatch(Command::EndActivity { activity: None, agent: None, time: time() }).err(), Some(PipelineError::NoActivity));
    p.dispatch(Command::StartActivity { activity: "testactivity".to_string(), agent: None, time: time() }).unwrap();
    let ops = p.dispatch(Command::EndActivity { activity: None, agent: None, time: time() }).unwrap();
    match &ops[0] {
        ChronicleTransaction::EndActivity(o) => assert_eq!(o.id.as_str(), "chronicle:activity:testactivity"),
        _ => panic!("expected an end"),
    }
    assert_eq!(p.model.activities[0].started, Some(time()));
    assert_eq!(p.model.activities[0].ended, Some(time()));
    assert_eq!(p.model.was_associated_with.len(), 1);
}

#[test]
fn use_and_generate_resolve_the_activity() {
    let mut p = session();
    p.dispatch(Command::StartActivity { activity: "a".to_string(), agent: Some("g".to_string()), time: time() }).unwrap();
    p.dispatch(Command::ActivityUse { entity: "in".to_string(), activity: None }).unwrap();
    p.dispatch(Command::ActivityUse { entity: "in".to_string(), activity: None }).unwrap();
    p.dispatch(Command::ActivityGenerate { entity: "out".to_string(), activity: Some("a".to_string()) }).unwrap();
    assert_eq!(p.model.used.len(), 1);
    assert_eq!(p.model.entities.len(), 2);
    assert_eq!(p.model.was_generated_by.len(), 1);
}

#[test]
fn many_activities_get_distinct_names() {
    let mut p = session();
    let mut ids = Vec::new();
    for _ in 0..100 {
        let ops = p.dispatch(Command::CreateActivity { name: "a".to_string() }).unwrap();
        match &ops[0] {
            ChronicleTransaction::CreateActivity(o) => ids.push((o.name.clone(), o.id.as_str().to_string())),
            _ => panic!("expected an activity"),
        }
    }
    assert_eq!(ids[0], ("a".to_string(), "chronicle:activity:a".to_string()));
    assert_eq!(ids[1].0, "a-1");
    assert_eq!(ids[99], ("a-99".to_string(), "chronicle:activity:a-99".to_string()));
    assert_eq!(p.model.activities.len(), 100);
}

#[test]
fn commands_need_a_namespace_and_valid_times() {
    let mut p = Pipeline::new();
    assert_eq!(p.dispatch(Command::CreateAgent { name: "x".to_string() }).err(), Some(PipelineError::NoNamespace));
    let mut p = session();
    let late = Timestamp::new(2014, 7, 8, 10, 0, 0).unwrap();
    p.dispatch(Command::StartActivity { activity: "a".to_string(), agent: Some("g".to_string()), time: late }).unwrap();
    assert_eq!(
        p.dispatch(Command::EndActivity { activity: None, agent: Some("g".to_string()), time: time() }).err(),
        Some(PipelineError::Processor(ProcessorError::ConstraintViolation))
    );
}
