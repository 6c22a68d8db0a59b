//! The data the command panel works on: what a task allows, the requests a
//! host asks the user to answer, and the commands the panel hands back.
use vstd::prelude::*;

verus! {

/// What the host allows for one task.
#[derive(Clone, Debug, Default)]
pub struct TaskAccess {
    pub send: bool,
    pub interrupt: bool,
    pub native: bool,
    pub reconnect: bool,
    pub description: String,
}

/// One question of a request, with its suggested answers.
#[derive(Clone, Debug)]
pub struct Question {
    pub id: String,
    pub prompt: String,
    pub options: Vec<String>,
    pub secret: bool,
}

/// The coding agents a new task can be started with.
#[derive(Clone, Copy, Debug, PartialEq, Eq, Structural)]
pub enum Agent {
    Codex,
    Claude,
}

/// The position of an agent among the providers: 0 or 1.
pub open spec fn agent_index(agent: Agent) -> nat {
    match agent {
        Agent::Codex => 0,
        Agent::Claude => 1,
    }
}

/// One offered answer to a request; `response` is the JSON text the host
/// receives when it is chosen.
#[derive(Clone, Debug)]
pub struct Choice {
    pub label: String,
    pub response: String,
}

/// A pending request of a worker.
#[derive(Clone, Debug)]
pub struct Request {
    pub id: String,
    pub worker: String,
    pub origin: String,
    pub title: String,
    pub detail: String,
    pub choices: Vec<Choice>,
    pub questions: Vec<Question>,
}

/// What the host reports: which tasks can be started, what each task
/// allows, and the pending requests. Task ids in `tasks` are distinct.
#[derive(Clone, Debug, Default)]
pub struct ControlStatus {
    pub can_start_codex: bool,
    pub can_start_claude: bool,
    pub tasks: Vec<(String, TaskAccess)>,
    pub requests: Vec<Request>,
    pub codex: String,
    pub claude: String,
    pub notice: String,
    /// The names the host shows for the two providers.
    pub codex_name: String,
    pub claude_name: String,
}

/// A command for the host to execute.
#[derive(Clone, Debug, PartialEq, Eq)]
pub enum Command {
    Sources,
    Start { provider: Agent, project: String, prompt: String },
    Send { worker: String, prompt: String },
    OpenNative { worker: String },
    Interrupt { worker: String },
    Reconnect { worker: String },
    /// `response` is JSON text.
    Reply { request: String, response: String },
    Login { provider: Agent },
}

/// A command as values: texts as their characters.
pub enum CommandView {
    Sources,
    Start { provider: Agent, project: Seq<char>, prompt: Seq<char> },
    Send { worker: Seq<char>, prompt: Seq<char> },
    OpenNative { worker: Seq<char> },
    Interrupt { worker: Seq<char> },
    Reconnect { worker: Seq<char> },
    Reply { request: Seq<char>, response: Seq<char> },
    Login { provider: Agent },
}

impl View for Command {
    type V = CommandView;

    open spec fn view(&self) -> CommandView {
        match self {
            Command::Sources => CommandView::Sources,
            Command::Start { provider, project, prompt } => CommandView::Start {
                provider: *provider,
                project: project@,
                prompt: prompt@,
            },
            Command::Send { worker, prompt } => CommandView::Send { worker: worker@, prompt: prompt@ },
            Command::OpenNative { worker } => CommandView::OpenNative { worker: worker@ },
            Command::Interrupt { worker } => CommandView::Interrupt { worker: worker@ },
            Command::Reconnect { worker } => CommandView::Reconnect { worker: worker@ },
            Command::Reply { request, response } => CommandView::Reply {
                request: request@,
                response: response@,
            },
            Command::Login { provider } => CommandView::Login { provider: *provider },
        }
    }
}

/// The keys the panel tells apart.
#[derive(Clone, Copy, Debug, PartialEq, Eq, Structural)]
pub enum PanelKey {
    Char(char),
    Enter,
    Tab,
    BackTab,
    Esc,
    Up,
    Down,
    Left,
    Right,
    Home,
    End,
    Backspace,
    Delete,
    PageUp,
    PageDown,
    F(u8),
    Other,
}

/// A key press: the key and whether Control or Alt was held.
#[derive(Clone, Copy, Debug, PartialEq, Eq, Structural)]
pub struct KeyPress {
    pub code: PanelKey,
    pub control: bool,
    pub alt: bool,
}

impl KeyPress {
    pub fn plain(code: PanelKey) -> (r: KeyPress)
        ensures
            r.code == code,
            !r.control,
            !r.alt,
    {
        KeyPress { code, control: false, alt: false }
    }
}

/// What a button or a clickable region of the panel does.
#[derive(Clone, Debug, PartialEq, Eq)]
pub enum Action {
    Control(Command),
    Key(PanelKey),
    Close,
    ControlProject(String),
}

pub enum ActionView {
    Control(CommandView),
    Key(PanelKey),
    Close,
    ControlProject(Seq<char>),
}

impl View for Action {
    type V = ActionView;

    open spec fn view(&self) -> ActionView {
        match self {
            Action::Control(c) => ActionView::Control(c@),
            Action::Key(k) => ActionView::Key(*k),
            Action::Close => ActionView::Close,
            Action::ControlProject(p) => ActionView::ControlProject(p@),
        }
    }
}

} // verus!
