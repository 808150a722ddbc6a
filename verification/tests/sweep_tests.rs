use nexus_curator::sweep::Component;
use nexus_curator::sweep::SearchPage;
use nexus_curator::sweep::SweepAction;
use nexus_curator::sweep::SweepError;
use nexus_curator::sweep::SweepEvent;
use nexus_curator::sweep::SweepState;
use nexus_curator::sweep::plan_deletions;
use nexus_curator::sweep::sweep_step;
use nexus_curator::version::normalize;

fn component(id: &str, version: &str) -> Component {
    Component {
        id: id.to_string(),
        repository: "releases".to_string(),
        format: "docker".to_string(),
        group: None,
        name: "app/image".to_string(),
        version: version.to_string(),
        assets: Vec::new(),
    }
}

fn page(items: Vec<Component>, token: Option<&str>) -> SweepEvent {
    SweepEvent::PageReceived {
        page: SearchPage {
            items,
            continuation_token: token.map(|t| t.to_string()),
        },
    }
}

/// Runs the protocol from the start through authentication, returning the
/// collecting state; asserts the opening transitions.
fn start_collecting(cutoff: &str) -> SweepState {
    let (state, action) = sweep_step(SweepState::Idle, SweepEvent::Start, cutoff);
    assert!(matches!(state, SweepState::Authenticating));
    assert!(matches!(action, SweepAction::Authenticate));
    let (state, action) = sweep_step(state, SweepEvent::AuthSucceeded, cutoff);
    assert!(matches!(&state, SweepState::Collecting { got } if got.is_empty()));
    assert!(matches!(action, SweepAction::Search { token: None }));
    state
}

#[test]
fn two_components_one_below_cutoff() {
    let cutoff = "1.5.0";
    let state = start_collecting(cutoff);
    let items = vec![component("old", "1.0.0.1"), component("new", "2.0.0.1")];
    let (state, action) = sweep_step(state, page(items, None), cutoff);
    assert!(
        matches!(&state, SweepState::Deleting { pending, done } if *done == 0 && pending == &vec!["old".to_string()])
    );
    assert!(matches!(&action, SweepAction::DeleteComponent { id } if id == "old"));
    let (state, action) = sweep_step(state, SweepEvent::DeleteSucceeded, cutoff);
    assert!(matches!(state, SweepState::Finished { deleted: 1 }));
    assert!(matches!(action, SweepAction::Stop));
}

#[test]
fn unparseable_version_aborts_before_any_delete() {
    let cutoff = "1.5.0";
    let state = start_collecting(cutoff);
    let items = vec![component("old", "1.0.0"), component("bad", "not-a-version")];
    let (state, action) = sweep_step(state, page(items, None), cutoff);
    assert!(matches!(
        state,
        SweepState::Failed { error: SweepError::Normalization }
    ));
    assert!(matches!(action, SweepAction::Stop));
}

#[test]
fn continuation_token_triggers_a_second_search() {
    let cutoff = "2.0.0";
    let state = start_collecting(cutoff);
    let (state, action) = sweep_step(state, page(vec![component("one", "1.0.0")], Some("tok")), cutoff);
    assert!(matches!(&state, SweepState::Collecting { got } if got.len() == 1));
    assert!(matches!(&action, SweepAction::Search { token: Some(t) } if t == "tok"));
    let (state, action) = sweep_step(state, page(vec![component("two", "1.1.0")], None), cutoff);
    assert!(
        matches!(&state, SweepState::Deleting { pending, done } if *done == 0 && pending == &vec!["one".to_string(), "two".to_string()])
    );
    assert!(matches!(&action, SweepAction::DeleteComponent { id } if id == "one"));
    let (state, action) = sweep_step(state, SweepEvent::DeleteSucceeded, cutoff);
    assert!(matches!(&action, SweepAction::DeleteComponent { id } if id == "two"));
    let (state, action) = sweep_step(state, SweepEvent::DeleteSucceeded, cutoff);
    assert!(matches!(state, SweepState::Finished { deleted: 2 }));
    assert!(matches!(action, SweepAction::Stop));
}

#[test]
fn nothing_below_cutoff_finishes_without_deleting() {
    let cutoff = "1.0.0";
    let state = start_collecting(cutoff);
    let (state, action) = sweep_step(state, page(vec![component("new", "2.0.0")], None), cutoff);
    assert!(matches!(state, SweepState::Finished { deleted: 0 }));
    assert!(matches!(action, SweepAction::Stop));
}

#[test]
fn empty_result_set_finishes_immediately() {
    let cutoff = "1.0.0";
    let state = start_collecting(cutoff);
    let (state, action) = sweep_step(state, page(Vec::new(), None), cutoff);
    assert!(matches!(state, SweepState::Finished { deleted: 0 }));
    assert!(matches!(action, SweepAction::Stop));
}

#[test]
fn unparseable_cutoff_aborts() {
    let cutoff = "garbage";
    let state = start_collecting(cutoff);
    let (state, action) = sweep_step(state, page(vec![component("one", "1.0.0")], None), cutoff);
    assert!(matches!(
        state,
        SweepState::Failed { error: SweepError::Normalization }
    ));
    assert!(matches!(action, SweepAction::Stop));
}

#[test]
fn auth_refusal_fails_the_run() {
    let cutoff = "1.0.0";
    let (state, _) = sweep_step(SweepState::Idle, SweepEvent::Start, cutoff);
    let (state, action) = sweep_step(state, SweepEvent::AuthFailed, cutoff);
    assert!(matches!(state, SweepState::Failed { error: SweepError::Auth }));
    assert!(matches!(action, SweepAction::Stop));
}

#[test]
fn search_transport_error_fails_the_run() {
    let cutoff = "1.0.0";
    let state = start_collecting(cutoff);
    let (state, action) = sweep_step(state, SweepEvent::SearchFailed, cutoff);
    assert!(matches!(
        state,
        SweepState::Failed { error: SweepError::Transport }
    ));
    assert!(matches!(action, SweepAction::Stop));
}

#[test]
fn undecodable_page_fails_the_run() {
    let cutoff = "1.0.0";
    let state = start_collecting(cutoff);
    let (state, action) = sweep_step(state, SweepEvent::PageUnreadable, cutoff);
    assert!(matches!(
        state,
        SweepState::Failed { error: SweepError::Serialization }
    ));
    assert!(matches!(action, SweepAction::Stop));
}

#[test]
fn delete_error_aborts_the_sweep() {
    let cutoff = "3.0.0";
    let state = start_collecting(cutoff);
    let (state, _) = sweep_step(
        state,
        page(vec![component("one", "1.0.0"), component("two", "2.0.0")], None),
        cutoff,
    );
    let (state, action) = sweep_step(state, SweepEvent::DeleteFailed, cutoff);
    assert!(matches!(state, SweepState::Failed { error: SweepError::Delete }));
    assert!(matches!(action, SweepAction::Stop));
}

#[test]
fn plan_lists_only_versions_below_cutoff_in_order() {
    let cutoff = normalize("1.5.0").unwrap();
    let items = vec![
        component("a", "1.0.0"),
        component("b", "2.0.0"),
        component("c", "1.4.9"),
    ];
    let ids = plan_deletions(&items, &cutoff).unwrap();
    assert_eq!(ids, vec!["a".to_string(), "c".to_string()]);
}

#[test]
fn plan_fails_on_first_bad_version() {
    let cutoff = normalize("1.5.0").unwrap();
    let items = vec![component("a", "1.0.0"), component("b", "nope")];
    assert!(plan_deletions(&items, &cutoff).is_err());
}

#[test]
fn second_sweep_over_survivors_plans_nothing() {
    let cutoff = normalize("1.5.0").unwrap();
    let items = vec![
        component("a", "1.0.0"),
        component("b", "2.0.0"),
        component("c", "1.4.9"),
        component("d", "1.5.0"),
    ];
    let deleted = plan_deletions(&items, &cutoff).unwrap();
    let survivors: Vec<Component> = items
        .into_iter()
        .filter(|c| !deleted.contains(&c.id))
        .collect();
    let second = plan_deletions(&survivors, &cutoff).unwrap();
    assert!(second.is_empty());
}
