use stack_installer::error::{to_reply, ErrorKind, InstallError};
use stack_installer::invoker::{Mode, ProcessReport};
use stack_installer::pipeline::{
    configure_database, configure_service, install_postgres, intended_order, start_service,
    Phase, Step, StepAction, StepEvent, StepName, StepRun, NSSM_EXECUTABLE, POSTGRES_SCRIPT,
    QWM_FOLDER, QWM_SERVICE_NAME,
};

const BASE: &str = "C:\\Users\\me\\Downloads";
const TARGET: &str = "D:\\Apps";

fn texts(list: &[&str]) -> Vec<String> {
    list.iter().map(|s| s.to_string()).collect()
}

/// Runs a step against a fake machine on which the paths in `present` exist
/// and a launched tool ends as `report` says. Returns the result and the
/// log of what the step asked for.
fn run_step(
    step: Step,
    present: &[&str],
    report: Option<ProcessReport>,
) -> (Option<Result<String, InstallError>>, Vec<String>) {
    let mut run = StepRun::new(step);
    let mut report = report;
    let mut log = Vec::new();
    let mut event = StepEvent::Begin;
    loop {
        match run.advance(event) {
            StepAction::Probe(path) => {
                log.push(format!("probe {}", path));
                event = StepEvent::Exists(present.contains(&path.as_str()));
            },
            StepAction::Launch => {
                log.push(format!("launch {}", run.step.command.program));
                event = StepEvent::Process(report.take().unwrap());
            },
            StepAction::Finish(result) => {
                assert_eq!(run.phase, Phase::Finished);
                return (Some(result), log);
            },
            StepAction::Halted => return (None, log),
        }
    }
}

fn exited(success: bool, stderr: &str) -> Option<ProcessReport> {
    Some(ProcessReport::Exited { success, stderr: stderr.as_bytes().to_vec() })
}

#[test]
fn names_of_the_bundle() {
    assert_eq!(QWM_FOLDER, "qwm_src");
    assert_eq!(POSTGRES_SCRIPT, "init.sql");
    assert_eq!(NSSM_EXECUTABLE, "nssm.exe");
    assert_eq!(QWM_SERVICE_NAME, "QWM");
}

#[test]
fn install_postgres_runs_the_installer_unattended() {
    let step = install_postgres(BASE, TARGET);
    let installer = "C:\\Users\\me\\Downloads\\qwm_src\\postgres_installer.exe";
    assert_eq!(step.command.program, installer);
    assert!(step.command.on_disk);
    assert_eq!(
        step.command.args,
        texts(&[
            "--mode",
            "unattended",
            "--superpassword",
            "qwm",
            "--servicename",
            "postgresql",
            "--serverport",
            "5432",
            "--datadir",
            "D:\\Apps\\data",
        ])
    );
    assert!(step.command.envs.is_empty());
    assert!(step.command.cwd.is_none());
    assert_eq!(step.mode, Mode::Uncaptured);
    assert_eq!(step.requirements.len(), 1);
    assert_eq!(step.requirements[0].path, installer);
    assert_eq!(step.requirements[0].kind, ErrorKind::ToolNotFound);
    assert_eq!(step.success, "PostgreSQL installed successfully.");
}

#[test]
fn install_postgres_data_dir_is_appended_as_text() {
    let step = install_postgres(BASE, "D:\\Apps\\");
    assert_eq!(step.command.args[9], "D:\\Apps\\\\data");
    let step = install_postgres(BASE, "");
    assert_eq!(step.command.args[9], "\\data");
}

#[test]
fn configure_database_passes_the_password_by_environment() {
    let step = configure_database(BASE, TARGET);
    let script = "C:\\Users\\me\\Downloads\\qwm_src\\migrations\\init.sql";
    assert_eq!(step.command.program, "C:\\Program Files\\PostgreSQL\\15\\bin\\psql.exe");
    assert!(step.command.on_disk);
    assert_eq!(step.command.args, texts(&["-U", "postgres", "-d", "postgres", "-f", script]));
    assert_eq!(step.command.envs, vec![("PGPASSWORD".to_string(), "qwm".to_string())]);
    assert!(step.command.args.iter().all(|a| a != "qwm"));
    assert!(step.command.cwd.is_none());
    assert_eq!(step.mode, Mode::Captured);
    assert_eq!(step.requirements.len(), 2);
    assert_eq!(step.requirements[0].path, script);
    assert_eq!(step.requirements[0].kind, ErrorKind::PreconditionMissing);
    assert_eq!(step.requirements[1].path, step.command.program);
    assert_eq!(step.requirements[1].kind, ErrorKind::ToolNotFound);
    assert_eq!(step.success, "Database configured successfully.");
}

#[test]
fn configure_service_installs_the_service_on_the_startup_script() {
    let step = configure_service(BASE, TARGET);
    let nssm = "C:\\Users\\me\\Downloads\\qwm_src\\QWM\\nssm.exe";
    let start_bat = "D:\\Apps\\QWM\\start.bat";
    assert_eq!(step.command.program, nssm);
    assert!(step.command.on_disk);
    assert_eq!(step.command.args, texts(&["install", "QWM", start_bat]));
    assert!(step.command.envs.is_empty());
    assert_eq!(step.mode, Mode::Uncaptured);
    assert_eq!(step.requirements.len(), 2);
    assert_eq!(step.requirements[0].path, nssm);
    assert_eq!(step.requirements[0].kind, ErrorKind::ToolNotFound);
    assert_eq!(step.requirements[1].path, start_bat);
    assert_eq!(step.requirements[1].kind, ErrorKind::PreconditionMissing);
    assert_eq!(step.success, "Service configured successfully.");
}

#[test]
fn start_service_runs_the_bundle_script_through_the_interpreter() {
    let step = start_service(BASE, TARGET);
    let batch = "C:\\Users\\me\\Downloads\\qwm_src\\start_service.bat";
    assert_eq!(step.command.program, "cmd");
    assert!(!step.command.on_disk);
    assert_eq!(step.command.args, texts(&["/C", batch]));
    assert_eq!(step.mode, Mode::Uncaptured);
    assert_eq!(step.requirements.len(), 1);
    assert_eq!(step.requirements[0].path, batch);
    assert_eq!(step.requirements[0].kind, ErrorKind::PreconditionMissing);
    assert_eq!(step.success, "Service started successfully.");
}

#[test]
fn missing_migration_script_is_reported_with_its_path_and_nothing_is_launched() {
    let (result, log) = run_step(configure_database(BASE, TARGET), &[], None);
    let err = result.unwrap().unwrap_err();
    assert_eq!(err.kind, ErrorKind::PreconditionMissing);
    assert!(err.message.contains("C:\\Users\\me\\Downloads\\qwm_src\\migrations\\init.sql"));
    assert_eq!(
        err.message,
        "SQL script not found at path: C:\\Users\\me\\Downloads\\qwm_src\\migrations\\init.sql"
    );
    assert_eq!(log, texts(&["probe C:\\Users\\me\\Downloads\\qwm_src\\migrations\\init.sql"]));
}

#[test]
fn missing_database_client_is_tool_not_found() {
    let script = "C:\\Users\\me\\Downloads\\qwm_src\\migrations\\init.sql";
    let (result, log) = run_step(configure_database(BASE, TARGET), &[script], None);
    let err = result.unwrap().unwrap_err();
    assert_eq!(err.kind, ErrorKind::ToolNotFound);
    assert_eq!(
        err.message,
        "Database client not found at path: C:\\Program Files\\PostgreSQL\\15\\bin\\psql.exe"
    );
    assert_eq!(log.len(), 2);
    assert!(log.iter().all(|line| line.starts_with("probe ")));
}

#[test]
fn missing_installer_is_tool_not_found_and_not_launched() {
    let (result, log) = run_step(install_postgres(BASE, TARGET), &[], None);
    let err = result.unwrap().unwrap_err();
    assert_eq!(err.kind, ErrorKind::ToolNotFound);
    assert_eq!(
        err.message,
        "PostgreSQL installer not found: C:\\Users\\me\\Downloads\\qwm_src\\postgres_installer.exe"
    );
    assert_eq!(log, texts(&["probe C:\\Users\\me\\Downloads\\qwm_src\\postgres_installer.exe"]));
}

#[test]
fn service_manager_is_looked_for_before_the_startup_script() {
    let (result, log) = run_step(configure_service(BASE, TARGET), &[], None);
    let err = result.unwrap().unwrap_err();
    assert_eq!(err.kind, ErrorKind::ToolNotFound);
    assert_eq!(
        err.message,
        "NSSM executable not found: C:\\Users\\me\\Downloads\\qwm_src\\QWM\\nssm.exe"
    );
    assert_eq!(log.len(), 1);
}

#[test]
fn missing_startup_script_stops_service_registration() {
    let nssm = "C:\\Users\\me\\Downloads\\qwm_src\\QWM\\nssm.exe";
    let (result, log) = run_step(configure_service(BASE, TARGET), &[nssm], None);
    let err = result.unwrap().unwrap_err();
    assert_eq!(err.kind, ErrorKind::PreconditionMissing);
    assert_eq!(err.message, "start.bat not found in the QWM folder: D:\\Apps\\QWM\\start.bat");
    assert_eq!(log, texts(&[&format!("probe {}", nssm), "probe D:\\Apps\\QWM\\start.bat"]));
}

#[test]
fn missing_batch_file_stops_the_start() {
    let (result, log) = run_step(start_service(BASE, TARGET), &[], None);
    let err = result.unwrap().unwrap_err();
    assert_eq!(err.kind, ErrorKind::PreconditionMissing);
    assert_eq!(
        err.message,
        "The batch file 'start_service.bat' was not found: C:\\Users\\me\\Downloads\\qwm_src\\start_service.bat"
    );
    assert_eq!(log.len(), 1);
}

#[test]
fn database_step_succeeds_when_the_client_does() {
    let script = "C:\\Users\\me\\Downloads\\qwm_src\\migrations\\init.sql";
    let psql = "C:\\Program Files\\PostgreSQL\\15\\bin\\psql.exe";
    let (result, log) = run_step(configure_database(BASE, TARGET), &[script, psql], exited(true, ""));
    assert_eq!(result.unwrap().unwrap(), "Database configured successfully.");
    assert_eq!(
        log,
        texts(&[&format!("probe {}", script), &format!("probe {}", psql), &format!("launch {}", psql)])
    );
}

#[test]
fn database_step_reports_what_the_client_wrote() {
    let script = "C:\\Users\\me\\Downloads\\qwm_src\\migrations\\init.sql";
    let psql = "C:\\Program Files\\PostgreSQL\\15\\bin\\psql.exe";
    let (result, _) = run_step(
        configure_database(BASE, TARGET),
        &[script, psql],
        exited(false, "permission denied"),
    );
    let err = result.unwrap().unwrap_err();
    assert_eq!(err.kind, ErrorKind::NonZeroExit);
    assert!(err.message.contains("permission denied"));
    assert_eq!(err.message, "SQL script execution failed:\npermission denied");
    assert_eq!(to_reply(Err(err)), Err("SQL script execution failed:\npermission denied".to_string()));
}

#[test]
fn database_step_reports_a_failed_launch() {
    let script = "C:\\Users\\me\\Downloads\\qwm_src\\migrations\\init.sql";
    let psql = "C:\\Program Files\\PostgreSQL\\15\\bin\\psql.exe";
    let report = Some(ProcessReport::LaunchFailed("not a valid application".to_string()));
    let (result, _) = run_step(configure_database(BASE, TARGET), &[script, psql], report);
    let err = result.unwrap().unwrap_err();
    assert_eq!(err.kind, ErrorKind::LaunchFailure);
    assert_eq!(err.message, "Failed to execute SQL script: not a valid application");
}

#[test]
fn installer_step_messages() {
    let installer = "C:\\Users\\me\\Downloads\\qwm_src\\postgres_installer.exe";
    let (result, log) = run_step(install_postgres(BASE, TARGET), &[installer], exited(true, ""));
    assert_eq!(result.unwrap().unwrap(), "PostgreSQL installed successfully.");
    assert_eq!(log.last().unwrap(), &format!("launch {}", installer));
    let (result, _) = run_step(install_postgres(BASE, TARGET), &[installer], exited(false, ""));
    let err = result.unwrap().unwrap_err();
    assert_eq!(err.kind, ErrorKind::NonZeroExit);
    assert_eq!(
        err.message,
        "PostgreSQL installation failed:\nthe process ended with a non-zero exit status"
    );
    let report = Some(ProcessReport::LaunchFailed("denied".to_string()));
    let (result, _) = run_step(install_postgres(BASE, TARGET), &[installer], report);
    assert_eq!(result.unwrap().unwrap_err().message, "Failed to execute PostgreSQL installer: denied");
    let report = Some(ProcessReport::WaitFailed("gone".to_string()));
    let (result, _) = run_step(install_postgres(BASE, TARGET), &[installer], report);
    let err = result.unwrap().unwrap_err();
    assert_eq!(err.kind, ErrorKind::WaitFailure);
    assert_eq!(err.message, "PostgreSQL installer could not be waited on: gone");
}

#[test]
fn service_step_messages() {
    let nssm = "C:\\Users\\me\\Downloads\\qwm_src\\QWM\\nssm.exe";
    let start_bat = "D:\\Apps\\QWM\\start.bat";
    let present = [nssm, start_bat];
    let (result, _) = run_step(configure_service(BASE, TARGET), &present, exited(true, ""));
    assert_eq!(result.unwrap().unwrap(), "Service configured successfully.");
    let report = Some(ProcessReport::LaunchFailed("denied".to_string()));
    let (result, _) = run_step(configure_service(BASE, TARGET), &present, report);
    assert_eq!(result.unwrap().unwrap_err().message, "Failed to configure service using NSSM: denied");
    let report = Some(ProcessReport::WaitFailed("gone".to_string()));
    let (result, _) = run_step(configure_service(BASE, TARGET), &present, report);
    assert_eq!(
        result.unwrap().unwrap_err().message,
        "NSSM tool encountered an issue during configuration: gone"
    );
    let (result, _) = run_step(configure_service(BASE, TARGET), &present, exited(false, ""));
    let err = result.unwrap().unwrap_err();
    assert_eq!(err.kind, ErrorKind::NonZeroExit);
    assert_eq!(
        err.message,
        "NSSM tool failed to configure the service: the process ended with a non-zero exit status"
    );
}

#[test]
fn start_step_messages() {
    let batch = "C:\\Users\\me\\Downloads\\qwm_src\\start_service.bat";
    let (result, log) = run_step(start_service(BASE, TARGET), &[batch], exited(true, ""));
    assert_eq!(result.unwrap().unwrap(), "Service started successfully.");
    assert_eq!(log, texts(&[&format!("probe {}", batch), "launch cmd"]));
    let report = Some(ProcessReport::LaunchFailed("denied".to_string()));
    let (result, _) = run_step(start_service(BASE, TARGET), &[batch], report);
    assert_eq!(result.unwrap().unwrap_err().message, "Failed to execute the batch file: denied");
    let report = Some(ProcessReport::WaitFailed("gone".to_string()));
    let (result, _) = run_step(start_service(BASE, TARGET), &[batch], report);
    assert_eq!(
        result.unwrap().unwrap_err().message,
        "Batch file execution encountered an issue: gone"
    );
    let (result, _) = run_step(start_service(BASE, TARGET), &[batch], exited(false, ""));
    assert_eq!(
        result.unwrap().unwrap_err().message,
        "Batch file execution failed: the process ended with a non-zero exit status"
    );
}

#[test]
fn a_failed_step_can_be_run_again() {
    let installer = "C:\\Users\\me\\Downloads\\qwm_src\\postgres_installer.exe";
    let (first, _) = run_step(install_postgres(BASE, TARGET), &[], None);
    assert!(first.unwrap().is_err());
    let (second, _) = run_step(install_postgres(BASE, TARGET), &[installer], exited(true, ""));
    assert!(second.unwrap().is_ok());
}

#[test]
fn a_run_out_of_turn_is_given_up() {
    let mut run = StepRun::new(install_postgres(BASE, TARGET));
    assert_eq!(run.phase, Phase::Ready);
    assert!(matches!(run.advance(StepEvent::Exists(true)), StepAction::Halted));
    assert_eq!(run.phase, Phase::Finished);
    assert!(matches!(run.advance(StepEvent::Begin), StepAction::Halted));

    let mut run = StepRun::new(install_postgres(BASE, TARGET));
    assert!(matches!(run.advance(StepEvent::Begin), StepAction::Probe(_)));
    assert_eq!(run.phase, Phase::Probing(0));
    let report = ProcessReport::Exited { success: true, stderr: Vec::new() };
    assert!(matches!(run.advance(StepEvent::Process(report)), StepAction::Halted));
    assert_eq!(run.phase, Phase::Finished);
}

#[test]
fn a_finished_run_launches_nothing() {
    let mut run = StepRun::new(start_service(BASE, TARGET));
    assert!(matches!(run.advance(StepEvent::Begin), StepAction::Probe(_)));
    assert!(matches!(run.advance(StepEvent::Exists(true)), StepAction::Launch));
    assert_eq!(run.phase, Phase::Launched);
    let report = ProcessReport::Exited { success: true, stderr: Vec::new() };
    assert!(matches!(run.advance(StepEvent::Process(report)), StepAction::Finish(Ok(_))));
    assert!(matches!(run.advance(StepEvent::Exists(true)), StepAction::Halted));
    assert!(matches!(run.advance(StepEvent::Begin), StepAction::Halted));
}

#[test]
fn steps_are_named_in_their_intended_order() {
    assert_eq!(
        intended_order(),
        vec![
            StepName::StagePayload,
            StepName::InstallDatabase,
            StepName::ConfigureDatabase,
            StepName::RegisterService,
            StepName::StartService,
        ]
    );
    assert_eq!(install_postgres(BASE, TARGET).name, StepName::InstallDatabase);
    assert_eq!(configure_database(BASE, TARGET).name, StepName::ConfigureDatabase);
    assert_eq!(configure_service(BASE, TARGET).name, StepName::RegisterService);
    assert_eq!(start_service(BASE, TARGET).name, StepName::StartService);
}

#[test]
fn steps_do_not_depend_on_each_other() {
    let batch = "C:\\Users\\me\\Downloads\\qwm_src\\start_service.bat";
    let (result, _) = run_step(start_service(BASE, TARGET), &[batch], exited(true, ""));
    assert!(result.unwrap().is_ok());
    let (result, _) = run_step(install_postgres(BASE, TARGET), &[], None);
    assert!(result.unwrap().is_err());
    let (result, _) = run_step(start_service(BASE, TARGET), &[batch], exited(true, ""));
    assert!(result.unwrap().is_ok());
}

#[test]
fn base_directory_with_trailing_separator_joins_cleanly() {
    let step = start_service("C:\\inst\\", TARGET);
    assert_eq!(step.requirements[0].path, "C:\\inst\\qwm_src\\start_service.bat");
    let step = configure_service("C:\\inst", "D:\\Apps\\");
    assert_eq!(step.requirements[1].path, "D:\\Apps\\QWM\\start.bat");
}
