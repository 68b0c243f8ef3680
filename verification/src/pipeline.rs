//! The installation pipeline: its steps, each a tool to run after the files
//! it needs were found, and the machine that carries one step out.
//!
//! The steps are independent. Running one does not start the next, and a
//! step that failed can be run again: a run is a fresh [`StepRun`].

use vstd::prelude::*;
use crate::error::{failure, outcome_view, ErrorKind, ErrorView, InstallError};
use crate::invoker::{judge, verdict, CommandSpec, Complaints, Mode, ProcessReport};
use crate::paths::{join, join_spec};
use crate::text::prefixed;

verus! {

/// The directory of the bundle, beside the installer.
pub const QWM_FOLDER: &'static str = "qwm_src";

/// The schema script, in the bundle's migrations directory.
pub const POSTGRES_SCRIPT: &'static str = "init.sql";

/// The service manager, in the bundled application folder.
pub const NSSM_EXECUTABLE: &'static str = "nssm.exe";

/// The name under which the service is registered.
pub const QWM_SERVICE_NAME: &'static str = "QWM";

/// The steps of the pipeline, by name.
#[derive(Clone, Copy, Debug, PartialEq, Eq, Structural)]
pub enum StepName {
    /// The payload is put into the installation target.
    StagePayload,
    /// The database engine is installed.
    InstallDatabase,
    /// The database schema is applied.
    ConfigureDatabase,
    /// The service is registered with the operating system.
    RegisterService,
    /// The service is started.
    StartService,
}

/// The steps in the order in which they are meant to run.
pub open spec fn intended_order_spec() -> Seq<StepName> {
    seq![
        StepName::StagePayload,
        StepName::InstallDatabase,
        StepName::ConfigureDatabase,
        StepName::RegisterService,
        StepName::StartService,
    ]
}

/// The steps in the order in which they are meant to run. The order is
/// advice to the caller: no step starts another, and each can be run alone.
pub fn intended_order() -> (order: Vec<StepName>)
    ensures
        order@ == intended_order_spec(),
{
    let mut order: Vec<StepName> = Vec::new();
    order.push(StepName::StagePayload);
    order.push(StepName::InstallDatabase);
    order.push(StepName::ConfigureDatabase);
    order.push(StepName::RegisterService);
    order.push(StepName::StartService);
    assert(order@ =~= intended_order_spec());
    order
}

/// A path that has to exist before the tool of a step is launched.
#[derive(Debug)]
pub struct Requirement {
    pub path: String,
    /// The class of the failure when the path is absent.
    pub kind: ErrorKind,
    /// What the message of that failure begins with; the path follows.
    pub complaint: String,
}

impl Requirement {
    /// The failure reported when the path is absent.
    pub open spec fn absent(self) -> ErrorView {
        failure(self.kind, self.complaint@, self.path@)
    }
}

/// One step of the pipeline.
#[derive(Debug)]
pub struct Step {
    pub name: StepName,
    /// The paths that have to exist, in the order in which they are looked for.
    pub requirements: Vec<Requirement>,
    /// The tool that does the work.
    pub command: CommandSpec,
    pub mode: Mode,
    pub complaints: Complaints,
    /// The text of success.
    pub success: String,
}

impl Step {
    /// Where the tool is a file on disk, the step looks for it before the launch.
    pub open spec fn checks_its_tool(self) -> bool {
        self.command.on_disk ==> exists|i: int|
            0 <= i < self.requirements.len() && (#[trigger] self.requirements[i]).kind
                == ErrorKind::ToolNotFound && self.requirements[i].path@ == self.command.program@
    }
}

/// Where a run of a step stands.
#[derive(Clone, Copy, Debug, PartialEq, Eq, Structural)]
pub enum Phase {
    /// Nothing was done yet.
    Ready,
    /// The caller was asked whether the requirement of this index exists.
    Probing(usize),
    /// The caller was asked to launch the tool.
    Launched,
    /// The run is over.
    Finished,
}

/// What the caller tells a run.
#[derive(Debug)]
pub enum StepEvent {
    /// The run is to begin.
    Begin,
    /// Whether the path asked for exists.
    Exists(bool),
    /// What became of the launch.
    Process(ProcessReport),
}

/// What a run asks of the caller.
#[derive(Debug)]
pub enum StepAction {
    /// Say whether this path exists.
    Probe(String),
    /// Launch the tool of the step, in the mode of the step.
    Launch,
    /// The run is over, with this result.
    Finish(Result<String, InstallError>),
    /// The event was not the answer to what was asked: the run was given up.
    Halted,
}

/// What a run asks of the caller, as contracts speak of it.
pub enum StepActionView {
    Probe(Seq<char>),
    Launch,
    Finish(Result<Seq<char>, ErrorView>),
    Halted,
}

impl View for StepAction {
    type V = StepActionView;

    open spec fn view(&self) -> StepActionView {
        match self {
            StepAction::Probe(path) => StepActionView::Probe(path@),
            StepAction::Launch => StepActionView::Launch,
            StepAction::Finish(r) => StepActionView::Finish(outcome_view(*r)),
            StepAction::Halted => StepActionView::Halted,
        }
    }
}

/// What is asked once the requirements before index `i` were found: the next
/// requirement, or the launch when none is left.
pub open spec fn after_found(step: Step, i: int) -> (Phase, StepActionView) {
    if 0 <= i < step.requirements.len() {
        (Phase::Probing(i as usize), StepActionView::Probe(step.requirements[i].path@))
    } else {
        (Phase::Launched, StepActionView::Launch)
    }
}

/// The result of a step whose tool was launched.
pub open spec fn conclusion(step: Step, report: ProcessReport) -> Result<Seq<char>, ErrorView> {
    match verdict(step.mode, step.complaints, report) {
        Ok(_) => Ok(step.success@),
        Err(e) => Err(e),
    }
}

/// One transition of a run: from where it stands and what the caller tells
/// it, to where it stands next and what it asks.
pub open spec fn step_next(step: Step, phase: Phase, event: StepEvent) -> (Phase, StepActionView) {
    match (phase, event) {
        (Phase::Ready, StepEvent::Begin) => after_found(step, 0),
        (Phase::Probing(i), StepEvent::Exists(present)) => {
            if i < step.requirements.len() {
                if present {
                    after_found(step, i + 1)
                } else {
                    (
                        Phase::Finished,
                        StepActionView::Finish(Err(step.requirements[i as int].absent())),
                    )
                }
            } else {
                (Phase::Finished, StepActionView::Halted)
            }
        },
        (Phase::Launched, StepEvent::Process(report)) => (
            Phase::Finished,
            StepActionView::Finish(conclusion(step, report)),
        ),
        _ => (Phase::Finished, StepActionView::Halted),
    }
}

/// A run of one step.
#[derive(Debug)]
pub struct StepRun {
    pub step: Step,
    pub phase: Phase,
}

impl StepRun {
    /// A run of `step` that has not begun.
    pub fn new(step: Step) -> (run: StepRun)
        ensures
            run.step == step,
            run.phase == Phase::Ready,
    {
        StepRun { step, phase: Phase::Ready }
    }

    fn ask_after(&mut self, i: usize) -> (action: StepAction)
        requires
            i <= old(self).step.requirements.len(),
        ensures
            final(self).step == old(self).step,
            (final(self).phase, action@) == after_found(old(self).step, i as int),
    {
        if i < self.step.requirements.len() {
            self.phase = Phase::Probing(i);
            StepAction::Probe(self.step.requirements[i].path.clone())
        } else {
            self.phase = Phase::Launched;
            StepAction::Launch
        }
    }

    /// Takes what the caller tells and answers what to do next.
    ///
    /// The tool is launched only after every requirement was found, and a
    /// requirement that is absent ends the run with its failure.
    pub fn advance(&mut self, event: StepEvent) -> (action: StepAction)
        ensures
            final(self).step == old(self).step,
            (final(self).phase, action@) == step_next(old(self).step, old(self).phase, event),
    {
        match (self.phase, event) {
            (Phase::Ready, StepEvent::Begin) => self.ask_after(0),
            (Phase::Probing(i), StepEvent::Exists(present)) => {
                if i < self.step.requirements.len() {
                    if present {
                        self.ask_after(i + 1)
                    } else {
                        self.phase = Phase::Finished;
                        let req = &self.step.requirements[i];
                        StepAction::Finish(
                            Err(
                                InstallError::labelled(
                                    req.kind,
                                    req.complaint.as_str(),
                                    req.path.as_str(),
                                ),
                            ),
                        )
                    }
                } else {
                    self.phase = Phase::Finished;
                    StepAction::Halted
                }
            },
            (Phase::Launched, StepEvent::Process(report)) => {
                self.phase = Phase::Finished;
                match judge(self.step.mode, &self.step.complaints, &report) {
                    Ok(_) => StepAction::Finish(Ok(self.step.success.clone())),
                    Err(e) => StepAction::Finish(Err(e)),
                }
            },
            _ => {
                self.phase = Phase::Finished;
                StepAction::Halted
            },
        }
    }
}

/// The bundle's directory, beside the installer in `base`.
pub open spec fn bundle_dir(base: Seq<char>) -> Seq<char> {
    join_spec(base, QWM_FOLDER@)
}

/// The database installer, in the bundle.
pub open spec fn postgres_installer_path(base: Seq<char>) -> Seq<char> {
    join_spec(bundle_dir(base), "postgres_installer.exe"@)
}

/// The schema script, in the bundle's migrations directory.
pub open spec fn sql_script_path(base: Seq<char>) -> Seq<char> {
    join_spec(join_spec(bundle_dir(base), "migrations"@), POSTGRES_SCRIPT@)
}

/// The database client, where the database installer puts it.
pub open spec fn psql_path() -> Seq<char> {
    "C:\\Program Files\\PostgreSQL\\15\\bin\\psql.exe"@
}

/// The service manager, in the bundled application folder.
pub open spec fn nssm_path(base: Seq<char>) -> Seq<char> {
    join_spec(join_spec(bundle_dir(base), "QWM"@), NSSM_EXECUTABLE@)
}

/// The startup script of the service, in the installed application folder.
pub open spec fn start_bat_path(target: Seq<char>) -> Seq<char> {
    join_spec(join_spec(target, "QWM"@), "start.bat"@)
}

/// The script that starts the service, in the bundle.
pub open spec fn start_service_path(base: Seq<char>) -> Seq<char> {
    join_spec(bundle_dir(base), "start_service.bat"@)
}

/// The arguments of the database installer: unattended mode, the
/// superuser's password, the service name, the port, and the data directory
/// below the installation target.
pub open spec fn install_postgres_args(target: Seq<char>) -> Seq<Seq<char>> {
    seq![
        "--mode"@,
        "unattended"@,
        "--superpassword"@,
        "qwm"@,
        "--servicename"@,
        "postgresql"@,
        "--serverport"@,
        "5432"@,
        "--datadir"@,
        target + "\\data"@,
    ]
}

/// The arguments of the database client: the user, the database, and the script to run.
pub open spec fn configure_database_args(base: Seq<char>) -> Seq<Seq<char>> {
    seq!["-U"@, "postgres"@, "-d"@, "postgres"@, "-f"@, sql_script_path(base)]
}

/// The arguments of the service manager: `install`, the service's name, and its startup script.
pub open spec fn configure_service_args(target: Seq<char>) -> Seq<Seq<char>> {
    seq!["install"@, QWM_SERVICE_NAME@, start_bat_path(target)]
}

/// The arguments of the command interpreter: run the script, then end.
pub open spec fn start_service_args(base: Seq<char>) -> Seq<Seq<char>> {
    seq!["/C"@, start_service_path(base)]
}

fn push_text(list: &mut Vec<String>, text: &str)
    ensures
        final(list).deep_view() == old(list).deep_view().push(text@),
{
    list.push(String::from_str(text));
    assert(list.deep_view() =~= old(list).deep_view().push(text@));
}

fn requirement(path: &str, kind: ErrorKind, complaint: &str) -> (req: Requirement)
    ensures
        req.path@ == path@,
        req.kind == kind,
        req.complaint@ == complaint@,
{
    Requirement { path: String::from_str(path), kind, complaint: String::from_str(complaint) }
}

fn complaints(launch: &str, wait: &str, exit: &str) -> (c: Complaints)
    ensures
        c.launch@ == launch@,
        c.wait@ == wait@,
        c.exit@ == exit@,
{
    Complaints {
        launch: String::from_str(launch),
        wait: String::from_str(wait),
        exit: String::from_str(exit),
    }
}

/// The step that installs the database engine: the bundled installer, run
/// unattended, spawned and waited for. `base_dir` is the directory of the
/// installer itself, `installation_path` the installation target.
pub fn install_postgres(base_dir: &str, installation_path: &str) -> (step: Step)
    ensures
        step.name == StepName::InstallDatabase,
        step.requirements.len() == 1,
        step.requirements[0].path@ == postgres_installer_path(base_dir@),
        step.requirements[0].kind == ErrorKind::ToolNotFound,
        step.requirements[0].complaint@ == "PostgreSQL installer not found: "@,
        step.command.program@ == postgres_installer_path(base_dir@),
        step.command.on_disk,
        step.command.args.deep_view() == install_postgres_args(installation_path@),
        step.command.envs.len() == 0,
        step.command.cwd is None,
        step.mode == Mode::Uncaptured,
        step.complaints.launch@ == "Failed to execute PostgreSQL installer: "@,
        step.complaints.wait@ == "PostgreSQL installer could not be waited on: "@,
        step.complaints.exit@ == "PostgreSQL installation failed:\n"@,
        step.success@ == "PostgreSQL installed successfully."@,
        step.checks_its_tool(),
{
    let bundle = join(base_dir, QWM_FOLDER);
    let installer = join(bundle.as_str(), "postgres_installer.exe");
    let mut requirements: Vec<Requirement> = Vec::new();
    requirements.push(
        requirement(
            installer.as_str(),
            ErrorKind::ToolNotFound,
            "PostgreSQL installer not found: ",
        ),
    );
    let mut args: Vec<String> = Vec::new();
    assert(args.deep_view() =~= Seq::empty());
    push_text(&mut args, "--mode");
    push_text(&mut args, "unattended");
    push_text(&mut args, "--superpassword");
    push_text(&mut args, "qwm");
    push_text(&mut args, "--servicename");
    push_text(&mut args, "postgresql");
    push_text(&mut args, "--serverport");
    push_text(&mut args, "5432");
    push_text(&mut args, "--datadir");
    let data_dir = prefixed(installation_path, "\\data");
    push_text(&mut args, data_dir.as_str());
    let step = Step {
        name: StepName::InstallDatabase,
        requirements,
        command: CommandSpec {
            program: installer,
            on_disk: true,
            args,
            envs: Vec::new(),
            cwd: None,
        },
        mode: Mode::Uncaptured,
        complaints: complaints(
            "Failed to execute PostgreSQL installer: ",
            "PostgreSQL installer could not be waited on: ",
            "PostgreSQL installation failed:\n",
        ),
        success: String::from_str("PostgreSQL installed successfully."),
    };
    assert(step.requirements[0].kind == ErrorKind::ToolNotFound);
    step
}

/// The step that applies the database schema: the database client, run to
/// completion with its error stream captured, on the bundle's schema script.
/// The superuser's password goes through the environment, never through the
/// arguments. `base_dir` is the directory of the installer itself.
pub fn configure_database(base_dir: &str, _installation_path: &str) -> (step: Step)
    ensures
        step.name == StepName::ConfigureDatabase,
        step.requirements.len() == 2,
        step.requirements[0].path@ == sql_script_path(base_dir@),
        step.requirements[0].kind == ErrorKind::PreconditionMissing,
        step.requirements[0].complaint@ == "SQL script not found at path: "@,
        step.requirements[1].path@ == psql_path(),
        step.requirements[1].kind == ErrorKind::ToolNotFound,
        step.requirements[1].complaint@ == "Database client not found at path: "@,
        step.command.program@ == psql_path(),
        step.command.on_disk,
        step.command.args.deep_view() == configure_database_args(base_dir@),
        step.command.envs.deep_view() == seq![("PGPASSWORD"@, "qwm"@)],
        step.command.cwd is None,
        step.mode == Mode::Captured,
        step.complaints.launch@ == "Failed to execute SQL script: "@,
        step.complaints.wait@ == "Failed to execute SQL script: "@,
        step.complaints.exit@ == "SQL script execution failed:\n"@,
        step.success@ == "Database configured successfully."@,
        step.checks_its_tool(),
{
    let bundle = join(base_dir, QWM_FOLDER);
    let migrations = join(bundle.as_str(), "migrations");
    let script = join(migrations.as_str(), POSTGRES_SCRIPT);
    let psql = "C:\\Program Files\\PostgreSQL\\15\\bin\\psql.exe";
    let mut requirements: Vec<Requirement> = Vec::new();
    requirements.push(
        requirement(
            script.as_str(),
            ErrorKind::PreconditionMissing,
            "SQL script not found at path: ",
        ),
    );
    requirements.push(
        requirement(psql, ErrorKind::ToolNotFound, "Database client not found at path: "),
    );
    let mut args: Vec<String> = Vec::new();
    assert(args.deep_view() =~= Seq::empty());
    push_text(&mut args, "-U");
    push_text(&mut args, "postgres");
    push_text(&mut args, "-d");
    push_text(&mut args, "postgres");
    push_text(&mut args, "-f");
    push_text(&mut args, script.as_str());
    let mut envs: Vec<(String, String)> = Vec::new();
    envs.push((String::from_str("PGPASSWORD"), String::from_str("qwm")));
    assert(envs.deep_view() =~= seq![("PGPASSWORD"@, "qwm"@)]);
    let step = Step {
        name: StepName::ConfigureDatabase,
        requirements,
        command: CommandSpec { program: String::from_str(psql), on_disk: true, args, envs, cwd: None },
        mode: Mode::Captured,
        complaints: complaints(
            "Failed to execute SQL script: ",
            "Failed to execute SQL script: ",
            "SQL script execution failed:\n",
        ),
        success: String::from_str("Database configured successfully."),
    };
    assert(step.requirements[1].kind == ErrorKind::ToolNotFound);
    step
}

/// The step that registers the service: the bundled service manager,
/// spawned and waited for, told to install the service on the startup script
/// that staging put below the installation target. `base_dir` is the
/// directory of the installer itself.
pub fn configure_service(base_dir: &str, installation_path: &str) -> (step: Step)
    ensures
        step.name == StepName::RegisterService,
        step.requirements.len() == 2,
        step.requirements[0].path@ == nssm_path(base_dir@),
        step.requirements[0].kind == ErrorKind::ToolNotFound,
        step.requirements[0].complaint@ == "NSSM executable not found: "@,
        step.requirements[1].path@ == start_bat_path(installation_path@),
        step.requirements[1].kind == ErrorKind::PreconditionMissing,
        step.requirements[1].complaint@ == "start.bat not found in the QWM folder: "@,
        step.command.program@ == nssm_path(base_dir@),
        step.command.on_disk,
        step.command.args.deep_view() == configure_service_args(installation_path@),
        step.command.envs.len() == 0,
        step.command.cwd is None,
        step.mode == Mode::Uncaptured,
        step.complaints.launch@ == "Failed to configure service using NSSM: "@,
        step.complaints.wait@ == "NSSM tool encountered an issue during configuration: "@,
        step.complaints.exit@ == "NSSM tool failed to configure the service: "@,
        step.success@ == "Service configured successfully."@,
        step.checks_its_tool(),
{
    let bundle = join(base_dir, QWM_FOLDER);
    let app_dir = join(bundle.as_str(), "QWM");
    let nssm = join(app_dir.as_str(), NSSM_EXECUTABLE);
    let installed = join(installation_path, "QWM");
    let start_bat = join(installed.as_str(), "start.bat");
    let mut requirements: Vec<Requirement> = Vec::new();
    requirements.push(
        requirement(nssm.as_str(), ErrorKind::ToolNotFound, "NSSM executable not found: "),
    );
    requirements.push(
        requirement(
            start_bat.as_str(),
            ErrorKind::PreconditionMissing,
            "start.bat not found in the QWM folder: ",
        ),
    );
    let mut args: Vec<String> = Vec::new();
    assert(args.deep_view() =~= Seq::empty());
    push_text(&mut args, "install");
    push_text(&mut args, QWM_SERVICE_NAME);
    push_text(&mut args, start_bat.as_str());
    let step = Step {
        name: StepName::RegisterService,
        requirements,
        command: CommandSpec { program: nssm, on_disk: true, args, envs: Vec::new(), cwd: None },
        mode: Mode::Uncaptured,
        complaints: complaints(
            "Failed to configure service using NSSM: ",
            "NSSM tool encountered an issue during configuration: ",
            "NSSM tool failed to configure the service: ",
        ),
        success: String::from_str("Service configured successfully."),
    };
    assert(step.requirements[0].kind == ErrorKind::ToolNotFound);
    step
}

/// The step that starts the service: the bundle's own startup script, run
/// through the command interpreter, spawned and waited for. The interpreter
/// is a command that the operating system finds, not a file of the bundle.
/// `base_dir` is the directory of the installer itself.
pub fn start_service(base_dir: &str, _installation_path: &str) -> (step: Step)
    ensures
        step.name == StepName::StartService,
        step.requirements.len() == 1,
        step.requirements[0].path@ == start_service_path(base_dir@),
        step.requirements[0].kind == ErrorKind::PreconditionMissing,
        step.requirements[0].complaint@ == "The batch file 'start_service.bat' was not found: "@,
        step.command.program@ == "cmd"@,
        !step.command.on_disk,
        step.command.args.deep_view() == start_service_args(base_dir@),
        step.command.envs.len() == 0,
        step.command.cwd is None,
        step.mode == Mode::Uncaptured,
        step.complaints.launch@ == "Failed to execute the batch file: "@,
        step.complaints.wait@ == "Batch file execution encountered an issue: "@,
        step.complaints.exit@ == "Batch file execution failed: "@,
        step.success@ == "Service started successfully."@,
        step.checks_its_tool(),
{
    let bundle = join(base_dir, QWM_FOLDER);
    let batch = join(bundle.as_str(), "start_service.bat");
    let mut requirements: Vec<Requirement> = Vec::new();
    requirements.push(
        requirement(
            batch.as_str(),
            ErrorKind::PreconditionMissing,
            "The batch file 'start_service.bat' was not found: ",
        ),
    );
    let mut args: Vec<String> = Vec::new();
    assert(args.deep_view() =~= Seq::empty());
    push_text(&mut args, "/C");
    push_text(&mut args, batch.as_str());
    Step {
        name: StepName::StartService,
        requirements,
        command: CommandSpec {
            program: String::from_str("cmd"),
            on_disk: false,
            args,
            envs: Vec::new(),
            cwd: None,
        },
        mode: Mode::Uncaptured,
        complaints: complaints(
            "Failed to execute the batch file: ",
            "Batch file execution encountered an issue: ",
            "Batch file execution failed: ",
        ),
        success: String::from_str("Service started successfully."),
    }
}

/// What a run that stands at `phase` asks, event after event, when it is
/// told `events` in turn.
pub open spec fn trace(step: Step, phase: Phase, events: Seq<StepEvent>) -> Seq<StepActionView>
    decreases events.len(),
{
    if events.len() == 0 {
        Seq::empty()
    } else {
        let (next, action) = step_next(step, phase, events[0]);
        seq![action] + trace(step, next, events.drop_first())
    }
}

/// Each event is answered by one action.
pub proof fn lemma_trace_len(step: Step, phase: Phase, events: Seq<StepEvent>)
    ensures
        trace(step, phase, events).len() == events.len(),
    decreases events.len(),
{
    if events.len() > 0 {
        lemma_trace_len(step, step_next(step, phase, events[0]).0, events.drop_first());
    }
}

/// Once the tool was launched or the run is over, nothing more is looked
/// for or launched.
proof fn lemma_over_is_over(step: Step, phase: Phase, events: Seq<StepEvent>, k: int)
    requires
        phase == Phase::Finished || phase == Phase::Launched,
        0 <= k < events.len(),
    ensures
        trace(step, phase, events)[k] != StepActionView::Launch,
        trace(step, phase, events)[k] !is Probe,
    decreases events.len(),
{
    lemma_trace_len(step, step_next(step, phase, events[0]).0, events.drop_first());
    if k > 0 {
        lemma_over_is_over(step, Phase::Finished, events.drop_first(), k - 1);
    }
}

/// A run that looks for requirement `i` asks for the launch only after it
/// was told that this and every later requirement exists.
proof fn lemma_launch_while_probing(step: Step, i: usize, events: Seq<StepEvent>, k: int)
    requires
        0 <= k < events.len(),
        trace(step, Phase::Probing(i), events)[k] == StepActionView::Launch,
    ensures
        i + k + 1 == step.requirements.len(),
        forall|j: int| 0 <= j <= k ==> events[j] == StepEvent::Exists(true),
    decreases events.len(),
{
    let rest = events.drop_first();
    let next = step_next(step, Phase::Probing(i), events[0]).0;
    lemma_trace_len(step, next, rest);
    if k == 0 {
    } else {
        if next is Probing {
            lemma_launch_while_probing(step, (i + 1) as usize, rest, k - 1);
            assert forall|j: int| 0 <= j <= k implies events[j] == StepEvent::Exists(true) by {
                if j > 0 {
                    assert(events[j] == rest[j - 1]);
                }
            }
        } else {
            lemma_over_is_over(step, next, rest, k - 1);
        }
    }
}

/// The tool is launched only after every requirement was found: where a run
/// from the start asks for the launch, it was told to begin and then, for
/// each requirement in turn, that the path exists.
pub proof fn law_launch_follows_every_check(step: Step, events: Seq<StepEvent>, k: int)
    requires
        0 <= k < events.len(),
        trace(step, Phase::Ready, events)[k] == StepActionView::Launch,
    ensures
        k == step.requirements.len(),
        events[0] == StepEvent::Begin,
        forall|j: int| 1 <= j <= k ==> events[j] == StepEvent::Exists(true),
{
    let rest = events.drop_first();
    let next = step_next(step, Phase::Ready, events[0]).0;
    lemma_trace_len(step, next, rest);
    if k == 0 {
    } else {
        match next {
            Phase::Probing(i) => {
                lemma_launch_while_probing(step, i, rest, k - 1);
                assert forall|j: int| 1 <= j <= k implies events[j] == StepEvent::Exists(true) by {
                    assert(events[j] == rest[j - 1]);
                }
            },
            _ => {
                lemma_over_is_over(step, next, rest, k - 1);
            },
        }
    }
}

/// A run that is told that requirement `i` is absent, after those before it
/// were found, ends with the failure of that requirement.
proof fn lemma_absent_while_probing(step: Step, from: usize, events: Seq<StepEvent>, i: int)
    requires
        from <= i < step.requirements.len(),
        events.len() > i - from,
        forall|j: int| 0 <= j < i - from ==> events[j] == StepEvent::Exists(true),
        events[i - from] == StepEvent::Exists(false),
    ensures
        trace(step, Phase::Probing(from), events)[i - from] == StepActionView::Finish(
            Err(step.requirements[i].absent()),
        ),
    decreases events.len(),
{
    let rest = events.drop_first();
    lemma_trace_len(step, step_next(step, Phase::Probing(from), events[0]).0, rest);
    if from < i {
        assert(events[0] == StepEvent::Exists(true));
        assert forall|j: int| 0 <= j < i - (from + 1) implies rest[j] == StepEvent::Exists(
            true,
        ) by {
            assert(rest[j] == events[j + 1]);
        }
        lemma_absent_while_probing(step, (from + 1) as usize, rest, i);
    }
}

/// A requirement that is absent ends the run with its own failure, and the
/// tool is never launched: in a run that was told to begin, that the
/// requirements before index `i` exist and that requirement `i` does not,
/// the answer to that is the failure of requirement `i`, and no action of
/// the run, before or after, is the launch.
pub proof fn law_absent_path_ends_the_run(step: Step, events: Seq<StepEvent>, i: int)
    requires
        0 <= i < step.requirements.len(),
        events.len() >= i + 2,
        events[0] == StepEvent::Begin,
        forall|j: int| 1 <= j <= i ==> events[j] == StepEvent::Exists(true),
        events[i + 1] == StepEvent::Exists(false),
    ensures
        trace(step, Phase::Ready, events).len() == events.len(),
        trace(step, Phase::Ready, events)[i + 1] == StepActionView::Finish(
            Err(step.requirements[i].absent()),
        ),
        forall|k: int|
            0 <= k < events.len() ==> trace(step, Phase::Ready, events)[k]
                != StepActionView::Launch,
{
    let rest = events.drop_first();
    lemma_trace_len(step, Phase::Ready, events);
    lemma_trace_len(step, Phase::Probing(0), rest);
    assert forall|j: int| 0 <= j < i implies rest[j] == StepEvent::Exists(true) by {
        assert(rest[j] == events[j + 1]);
    }
    assert(rest[i] == events[i + 1]);
    lemma_absent_while_probing(step, 0, rest, i);
    assert forall|k: int| 0 <= k < events.len() implies trace(step, Phase::Ready, events)[k]
        != StepActionView::Launch by {
        if trace(step, Phase::Ready, events)[k] == StepActionView::Launch {
            law_launch_follows_every_check(step, events, k);
        }
    }
}

/// A tool that is a file on disk is launched only after it was found:
/// where a step looks for its tool and a run of it asks for the launch, the
/// run was told before that the tool's path exists.
pub proof fn law_launched_tool_was_found(step: Step, events: Seq<StepEvent>, k: int)
    requires
        step.checks_its_tool(),
        step.command.on_disk,
        0 <= k < events.len(),
        trace(step, Phase::Ready, events)[k] == StepActionView::Launch,
    ensures
        exists|i: int|
            0 <= i < k && (#[trigger] step.requirements[i]).path@ == step.command.program@
                && events[i + 1] == StepEvent::Exists(true),
{
    law_launch_follows_every_check(step, events, k);
    let i = choose|i: int|
        0 <= i < step.requirements.len() && (#[trigger] step.requirements[i]).kind
            == ErrorKind::ToolNotFound && step.requirements[i].path@ == step.command.program@;
    assert(events[i + 1] == StepEvent::Exists(true));
}

/// A tool that is not on disk is reported as `ToolNotFound` and not
/// launched: where a step looks for its tool as requirement `i`, and a run
/// is told that the requirements before it exist and that the tool does
/// not, the run ends with a failure of that class which names the tool's
/// path, and never asks for the launch.
pub proof fn law_absent_tool_is_not_launched(step: Step, events: Seq<StepEvent>, i: int)
    requires
        0 <= i < step.requirements.len(),
        step.requirements[i].kind == ErrorKind::ToolNotFound,
        step.requirements[i].path@ == step.command.program@,
        events.len() >= i + 2,
        events[0] == StepEvent::Begin,
        forall|j: int| 1 <= j <= i ==> events[j] == StepEvent::Exists(true),
        events[i + 1] == StepEvent::Exists(false),
    ensures
        trace(step, Phase::Ready, events).len() == events.len(),
        trace(step, Phase::Ready, events)[i + 1] == StepActionView::Finish(
            Err(
                failure(
                    ErrorKind::ToolNotFound,
                    step.requirements[i].complaint@,
                    step.command.program@,
                ),
            ),
        ),
        forall|k: int|
            0 <= k < events.len() ==> trace(step, Phase::Ready, events)[k]
                != StepActionView::Launch,
{
    law_absent_path_ends_the_run(step, events, i);
}

/// A file that a step needs and that is missing is reported as
/// `PreconditionMissing` and the tool is not launched: where requirement `i`
/// of a step is of that class, and a run is told that the requirements
/// before it exist and that it does not, the run ends with a failure of that
/// class which names the missing path, and never asks for the launch.
pub proof fn law_absent_precondition_is_not_launched(step: Step, events: Seq<StepEvent>, i: int)
    requires
        0 <= i < step.requirements.len(),
        step.requirements[i].kind == ErrorKind::PreconditionMissing,
        events.len() >= i + 2,
        events[0] == StepEvent::Begin,
        forall|j: int| 1 <= j <= i ==> events[j] == StepEvent::Exists(true),
        events[i + 1] == StepEvent::Exists(false),
    ensures
        trace(step, Phase::Ready, events).len() == events.len(),
        trace(step, Phase::Ready, events)[i + 1] == StepActionView::Finish(
            Err(
                failure(
                    ErrorKind::PreconditionMissing,
                    step.requirements[i].complaint@,
                    step.requirements[i].path@,
                ),
            ),
        ),
        forall|k: int|
            0 <= k < events.len() ==> trace(step, Phase::Ready, events)[k]
                != StepActionView::Launch,
{
    law_absent_path_ends_the_run(step, events, i);
}

} // verus!
