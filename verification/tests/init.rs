use gx::init::{Init, InitError, InitReport, OutputLine};

#[test]
fn render_init_no_actions() {
    let report = InitReport {
        actions_discovered: 0,
        created: false,
    };
    let lines = report.render();
    assert_eq!(lines.len(), 1);
}

#[test]
fn render_init_with_actions() {
    let report = InitReport {
        actions_discovered: 2,
        created: true,
    };
    let lines = report.render();
    assert!(lines.contains(&OutputLine::Summary {
        text: "2 actions discovered · manifest created".to_string(),
    }));
}

#[test]
fn render_init_one_action_is_singular() {
    let report = InitReport {
        actions_discovered: 1,
        created: true,
    };
    assert_eq!(
        report.render(),
        vec![
            OutputLine::Blank,
            OutputLine::Summary {
                text: "1 action discovered · manifest created".to_string()
            }
        ]
    );
}

#[test]
fn init_refuses_an_existing_manifest() {
    assert_eq!(Init.start(true, true), Err(InitError::AlreadyInitialized));
    assert_eq!(
        InitError::AlreadyInitialized.message(),
        "already initialized — use `gx tidy` to update"
    );
}

#[test]
fn init_warns_without_token() {
    assert_eq!(Init.start(false, true).unwrap().len(), 1);
    let notices = Init.start(false, false).unwrap();
    assert_eq!(notices.len(), 2);
    assert!(notices[1].contains("No GITHUB_TOKEN"));
    let report = Init.report(3, false);
    assert_eq!(report, InitReport { actions_discovered: 3, created: true });
}
