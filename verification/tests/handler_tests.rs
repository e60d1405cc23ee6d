use hockey_reminder::handler::{Mode, Request, Workflow};

fn request(mode: Mode, workflows: Vec<Workflow>) -> Request {
    Request {
        mode,
        discord_hook_url: "prod".to_string(),
        test_discord_hook_url: "test".to_string(),
        ical_url: "ical".to_string(),
        team_id: "123".to_string(),
        workflows,
    }
}

#[test]
fn destination_follows_mode() {
    let r = request(Mode::Test, vec![]);
    assert_eq!(r.destination(), "test");
    let r2 = request(Mode::Production, vec![]);
    assert_eq!(r2.destination(), "prod");
}

#[test]
fn workflows_default_to_daysmart() {
    let r = request(Mode::Test, vec![]);
    assert_eq!(r.effective_workflows(), vec![Workflow::Daysmart]);
    let r2 = request(Mode::Test, vec![Workflow::Benchapp, Workflow::Daysmart]);
    assert_eq!(r2.effective_workflows(), vec![Workflow::Benchapp, Workflow::Daysmart]);
}
