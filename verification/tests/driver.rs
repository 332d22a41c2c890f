use osbuild_cfg::blueprint::{Blueprint, Customizations, Package, Packages, Sshkey};
use osbuild_cfg::render::RenderError;
use osbuild_cfg::driver::{Driver, Event, Notice, Phase, RunError, Step};
use osbuild_cfg::gate::GateError;
use osbuild_cfg::osrelease::UnsupportedOs;
use osbuild_cfg::source_root::SourceRoot;

const INSTALLED: Option<&str> = Some("/usr/bin/osbuild-cfg");

fn packages(names: &[&str]) -> Option<Packages> {
    Some(Packages(
        names.iter().map(|n| Package { name: n.to_string(), version: None }).collect(),
    ))
}

fn keys(users: &[&str]) -> Option<Customizations> {
    Some(Customizations {
        sshkey: Some(
            users.iter().map(|u| Sshkey { user: u.to_string(), pubkey: "hello".to_string() }).collect(),
        ),
    })
}

fn loaded(blueprint: Blueprint) -> Event {
    Event::Blueprint { blueprint }
}

/// Answers every step with success and returns the steps in order.
fn walk(driver: &mut Driver, first: Step, blueprint: Blueprint) -> Vec<Step> {
    let mut blueprint = Some(blueprint);
    let mut steps = vec![first];
    loop {
        let event = match steps.last().unwrap() {
            Step::ListTarget => Event::TargetListed { empty: true },
            Step::ReadOsRelease => Event::OsRelease { contents: "ID=fedora\n".to_string() },
            Step::LoadBlueprint => loaded(blueprint.take().unwrap()),
            Step::ResolveRootHome => Event::RootHome { root: SourceRoot::plain() },
            Step::Run(_) | Step::ShowTree => Event::Exited { success: true },
            Step::Finish => return steps,
            _ => Event::Done,
        };
        steps.push(driver.step(event).unwrap());
    }
}

#[test]
fn a_dry_run_shows_commands_and_the_tree() {
    let (mut driver, first) = Driver::start(true, INSTALLED, true, true);
    assert!(driver.is_dry_run());
    assert!(driver.consumes());
    let blueprint = Blueprint { packages: packages(&["httpd", "php"]), customizations: None };
    let steps = walk(&mut driver, first.unwrap(), blueprint);
    assert_eq!(
        steps,
        [
            Step::ListTarget,
            Step::LoadBlueprint,
            Step::WriteFiles,
            Step::Say(Notice::DryRunEnabled),
            Step::Show(0),
            Step::ShowTree,
            Step::RemoveBlueprint,
            Step::Finish,
        ]
    );
    assert_eq!(driver.phase(), Phase::Finished);
    assert_eq!(driver.rendered().commands.len(), 1);
    assert_eq!(driver.rendered().commands[0].0, ["dnf", "install", "-y", "httpd", "php"]);
}

#[test]
fn a_run_that_applies_executes_in_queue_order_and_consumes_itself() {
    let (mut driver, first) = Driver::start(false, INSTALLED, true, true);
    assert!(driver.consumes());
    let blueprint = Blueprint { packages: packages(&["httpd"]), customizations: keys(&["root"]) };
    let steps = walk(&mut driver, first.unwrap(), blueprint);
    assert_eq!(
        steps,
        [
            Step::ReadOsRelease,
            Step::LoadBlueprint,
            Step::ResolveRootHome,
            Step::WriteFiles,
            Step::Run(0),
            Step::RemoveBlueprint,
            Step::RemoveSelf,
            Step::Say(Notice::Complete),
            Step::Finish,
        ]
    );
    assert_eq!(driver.rendered().filesystem.entries(), ["usr"]);
}

#[test]
fn a_run_outside_a_container_keeps_its_files() {
    let (mut driver, first) = Driver::start(false, INSTALLED, false, true);
    assert!(!driver.consumes());
    let blueprint = Blueprint { packages: None, customizations: None };
    let steps = walk(&mut driver, first.unwrap(), blueprint);
    assert_eq!(
        steps,
        [
            Step::ReadOsRelease,
            Step::LoadBlueprint,
            Step::WriteFiles,
            Step::Say(Notice::NoCommands),
            Step::Say(Notice::Complete),
            Step::Finish,
        ]
    );
    assert!(driver.rendered().filesystem.is_empty());
}

#[test]
fn a_dry_run_without_commands() {
    let (mut driver, first) = Driver::start(true, None, false, false);
    let blueprint = Blueprint { packages: None, customizations: keys(&["root", "root"]) };
    let steps = walk(&mut driver, first.unwrap(), blueprint);
    assert_eq!(
        steps,
        [
            Step::ListTarget,
            Step::LoadBlueprint,
            Step::ResolveRootHome,
            Step::WriteFiles,
            Step::Say(Notice::DryRunEnabled),
            Step::Say(Notice::NoCommands),
            Step::ShowTree,
            Step::Finish,
        ]
    );
}

#[test]
fn a_dry_run_into_a_directory_with_entries_fails_before_rendering() {
    let (mut driver, first) = Driver::start(true, INSTALLED, true, true);
    assert_eq!(first, Ok(Step::ListTarget));
    assert_eq!(
        driver.step(Event::TargetListed { empty: false }),
        Err(RunError::Gate(GateError::NonEmptyTarget))
    );
    assert_eq!(driver.phase(), Phase::Failed);
    assert!(driver.rendered().filesystem.is_empty());
    assert!(driver.rendered().commands.is_empty());
    // The run is over: the blueprint is not taken any more.
    let blueprint = Blueprint { packages: packages(&["httpd"]), customizations: None };
    assert_eq!(driver.step(loaded(blueprint)), Err(RunError::OutOfTurn));
    assert!(driver.rendered().commands.is_empty());
}

#[test]
fn applying_without_root_fails_at_once() {
    let (driver, first) = Driver::start(false, INSTALLED, true, false);
    assert_eq!(first, Err(RunError::Gate(GateError::NotRoot)));
    assert_eq!(driver.phase(), Phase::Failed);
    // A dry run does not need root.
    let (_, first) = Driver::start(true, INSTALLED, true, false);
    assert_eq!(first, Ok(Step::ListTarget));
}

#[test]
fn applying_on_another_family_fails() {
    let (mut driver, first) = Driver::start(false, INSTALLED, true, true);
    assert_eq!(first, Ok(Step::ReadOsRelease));
    assert_eq!(
        driver.step(Event::OsRelease { contents: "ID=debian\n".to_string() }),
        Err(RunError::Gate(GateError::UnsupportedOs(UnsupportedOs {
            id: Some("debian".to_string())
        })))
    );
    assert_eq!(driver.phase(), Phase::Failed);
}

#[test]
fn a_key_for_another_user_fails_the_run_with_nothing_rendered() {
    let (mut driver, _) = Driver::start(true, None, false, false);
    driver.step(Event::TargetListed { empty: true }).unwrap();
    let blueprint =
        Blueprint { packages: packages(&["httpd"]), customizations: keys(&["root", "alice"]) };
    assert_eq!(
        driver.step(loaded(blueprint)),
        Err(RunError::Render(RenderError::NonRootSshUser))
    );
    assert!(driver.rendered().filesystem.is_empty());
    assert!(driver.rendered().commands.is_empty());
}

#[test]
fn a_blueprint_that_cannot_be_loaded_fails_the_run_with_nothing_rendered() {
    let (mut driver, _) = Driver::start(true, None, false, false);
    assert_eq!(driver.step(Event::TargetListed { empty: true }), Ok(Step::LoadBlueprint));
    assert_eq!(driver.step(Event::Failed), Err(RunError::StepFailed));
    assert_eq!(driver.phase(), Phase::Failed);
    assert!(driver.rendered().filesystem.is_empty());
    assert_eq!(driver.rendered().filesystem.entries().len(), 0);
}

#[test]
fn a_failing_command_ends_the_run_and_names_the_program() {
    let (mut driver, _) = Driver::start(false, INSTALLED, true, true);
    driver.step(Event::OsRelease { contents: "ID=fedora".to_string() }).unwrap();
    let blueprint = Blueprint { packages: packages(&["httpd"]), customizations: None };
    assert_eq!(driver.step(loaded(blueprint)), Ok(Step::WriteFiles));
    // Nothing is removed before the commands have run.
    assert_eq!(driver.step(Event::Done), Ok(Step::Run(0)));
    assert_eq!(
        driver.step(Event::Exited { success: false }),
        Err(RunError::CommandFailed { program: "dnf".to_string() })
    );
    assert_eq!(driver.phase(), Phase::Failed);
    assert_eq!(driver.step(Event::Done), Err(RunError::OutOfTurn));
}

#[test]
fn a_run_that_fails_removes_nothing() {
    let (mut driver, first) = Driver::start(false, INSTALLED, true, true);
    assert!(driver.consumes());
    let mut blueprint = Some(Blueprint { packages: packages(&["a"]), customizations: None });
    let mut step = first.unwrap();
    let mut steps = vec![step];
    let error = loop {
        let event = match step {
            Step::ReadOsRelease => Event::OsRelease { contents: "ID=fedora\n".to_string() },
            Step::LoadBlueprint => loaded(blueprint.take().unwrap()),
            Step::Run(_) => Event::Exited { success: false },
            _ => Event::Done,
        };
        match driver.step(event) {
            Ok(next) => {
                step = next;
                steps.push(step);
            }
            Err(e) => break e,
        }
    };
    assert_eq!(error, RunError::CommandFailed { program: "dnf".to_string() });
    assert_eq!(
        steps,
        [Step::ReadOsRelease, Step::LoadBlueprint, Step::WriteFiles, Step::Run(0)]
    );
    assert!(!steps.contains(&Step::RemoveBlueprint));
    assert!(!steps.contains(&Step::RemoveSelf));
}

#[test]
fn a_dry_run_whose_tree_fails_keeps_the_blueprint() {
    let (mut driver, first) = Driver::start(true, INSTALLED, true, true);
    assert!(driver.consumes());
    let mut step = first.unwrap();
    let mut blueprint = Some(Blueprint { packages: packages(&["httpd"]), customizations: None });
    let mut seen = vec![step];
    while step != Step::ShowTree {
        let event = match step {
            Step::ListTarget => Event::TargetListed { empty: true },
            Step::LoadBlueprint => loaded(blueprint.take().unwrap()),
            _ => Event::Done,
        };
        step = driver.step(event).unwrap();
        seen.push(step);
    }
    assert!(!seen.contains(&Step::RemoveBlueprint));
    assert_eq!(driver.step(Event::Exited { success: false }), Err(RunError::TreeFailed));
}

#[test]
fn a_consuming_run_without_commands_still_cleans_up_last() {
    let (mut driver, first) = Driver::start(false, INSTALLED, true, true);
    let blueprint = Blueprint { packages: None, customizations: None };
    let steps = walk(&mut driver, first.unwrap(), blueprint);
    assert_eq!(
        steps,
        [
            Step::ReadOsRelease,
            Step::LoadBlueprint,
            Step::WriteFiles,
            Step::Say(Notice::NoCommands),
            Step::RemoveBlueprint,
            Step::RemoveSelf,
            Step::Say(Notice::Complete),
            Step::Finish,
        ]
    );
}

#[test]
fn a_failing_tree_ends_the_dry_run() {
    let (mut driver, first) = Driver::start(true, None, false, false);
    let mut step = first.unwrap();
    let mut blueprint = Some(Blueprint { packages: None, customizations: None });
    while step != Step::ShowTree {
        let event = match step {
            Step::ListTarget => Event::TargetListed { empty: true },
            Step::LoadBlueprint => loaded(blueprint.take().unwrap()),
            _ => Event::Done,
        };
        step = driver.step(event).unwrap();
    }
    assert_eq!(driver.step(Event::Exited { success: false }), Err(RunError::TreeFailed));
}

#[test]
fn an_event_out_of_turn_ends_the_run() {
    let (mut driver, _) = Driver::start(true, None, false, false);
    assert_eq!(
        driver.step(Event::OsRelease { contents: "ID=fedora".to_string() }),
        Err(RunError::OutOfTurn)
    );
    let (mut driver, _) = Driver::start(false, None, false, true);
    assert_eq!(driver.step(Event::TargetListed { empty: true }), Err(RunError::OutOfTurn));
    let (mut driver, _) = Driver::start(true, None, false, false);
    driver.step(Event::TargetListed { empty: true }).unwrap();
    assert_eq!(driver.step(Event::Done), Err(RunError::OutOfTurn));
    let (mut driver, _) = Driver::start(true, None, false, false);
    driver.step(Event::TargetListed { empty: true }).unwrap();
    driver.step(loaded(Blueprint { packages: None, customizations: None })).unwrap();
    assert_eq!(driver.step(Event::Exited { success: true }), Err(RunError::OutOfTurn));
}

#[test]
fn a_finished_run_takes_no_more_events() {
    let (mut driver, first) = Driver::start(true, None, false, false);
    walk(&mut driver, first.unwrap(), Blueprint { packages: None, customizations: None });
    assert_eq!(driver.phase(), Phase::Finished);
    assert_eq!(driver.step(Event::Done), Err(RunError::OutOfTurn));
    assert_eq!(driver.step(Event::Failed), Err(RunError::OutOfTurn));
}
