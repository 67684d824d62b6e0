//! What passes between the user interface, the application and the agent.

use vstd::prelude::*;

verus! {

/// Application state level events that can come from the UI
#[derive(Debug)]
pub enum Event {
    /// Exit requested
    Exit,
    /// User submitted a message as input
    Input(String),
    /// User wants the queued messages submitted right now
    ForceSubmitQueued,
}

/// Notifications to the UI
#[derive(Debug)]
pub enum Notification {
    /// Update the interface
    Update,
    /// User message queued to be submitted to the LLM
    PromptQueued(String),
    /// User message has been submitted to the LLM
    PromptSubmitted,
    /// The agent is gone
    Exit,
}

/// What the application waits for
#[derive(Debug)]
pub enum AppInput {
    /// An event on the UI
    Ui(Event),
    /// A notification for the UI
    Notified(Notification),
    /// Neither, for some time, or no notifications any more
    Quiet,
}

/// Notifications to be sent to the agent
#[derive(Debug)]
pub enum AgentNotification {
    /// Notify of an exit event
    Exit,
    /// Queue the given prompt until the next cycle where we can naturally submit it
    QueuePrompt(String),
    /// Force submitting all queued prompts *right now*
    ForceSubmitQueued,
}

/// What the application does
#[derive(Debug)]
pub struct AppOutput {
    /// Notify the UI first
    pub to_ui: Option<Notification>,
    /// Then notify the agent
    pub to_agent: Option<AgentNotification>,
    /// Then exit
    pub exit: bool,
}

/// One round of the application: notifications are passed on to the UI, input is queued for the
/// agent, and both ends are told to exit.
pub fn app_round(input: AppInput) -> (r: AppOutput)
    ensures
        match input {
            AppInput::Ui(Event::Exit) => r == (AppOutput {
                to_ui: None,
                to_agent: Some(AgentNotification::Exit),
                exit: true,
            }),
            AppInput::Ui(Event::Input(message)) => r == (AppOutput {
                to_ui: Some(Notification::PromptQueued(message)),
                to_agent: Some(AgentNotification::QueuePrompt(message)),
                exit: false,
            }),
            AppInput::Ui(Event::ForceSubmitQueued) => r == (AppOutput {
                to_ui: None,
                to_agent: Some(AgentNotification::ForceSubmitQueued),
                exit: false,
            }),
            AppInput::Notified(notification) => r == (AppOutput {
                to_ui: Some(notification),
                to_agent: None,
                exit: notification is Exit,
            }),
            AppInput::Quiet => r == (AppOutput {
                to_ui: Some(Notification::Update),
                to_agent: None,
                exit: false,
            }),
        },
{
    match input {
        AppInput::Ui(event) => match event {
            Event::Exit => AppOutput {
                to_ui: None,
                to_agent: Some(AgentNotification::Exit),
                exit: true,
            },
            Event::Input(message) => AppOutput {
                to_ui: Some(Notification::PromptQueued(message.clone())),
                to_agent: Some(AgentNotification::QueuePrompt(message)),
                exit: false,
            },
            Event::ForceSubmitQueued => AppOutput {
                to_ui: None,
                to_agent: Some(AgentNotification::ForceSubmitQueued),
                exit: false,
            },
        },
        AppInput::Notified(notification) => {
            let exit = match &notification {
                Notification::Exit => true,
                _ => false,
            };
            AppOutput { to_ui: Some(notification), to_agent: None, exit }
        },
        AppInput::Quiet => AppOutput {
            to_ui: Some(Notification::Update),
            to_agent: None,
            exit: false,
        },
    }
}

/// What an event from the UI leads to where messages are submitted at once
#[derive(Debug)]
pub struct BuddyOutput {
    /// A message to submit to the agent
    pub message: Option<String>,
    /// Whether the application ends
    pub exit: bool,
}

/// One round of the application where messages are submitted at once: input is submitted to the
/// agent, and the application ends where that is asked for. Nothing comes of a round without an
/// event.
pub fn buddy_round(event: Option<Event>) -> (r: BuddyOutput)
    ensures
        r == match event {
            Some(Event::Exit) => BuddyOutput { message: None, exit: true },
            Some(Event::Input(message)) => BuddyOutput { message: Some(message), exit: false },
            _ => BuddyOutput { message: None, exit: false },
        },
{
    match event {
        Some(Event::Exit) => BuddyOutput { message: None, exit: true },
        Some(Event::Input(message)) => BuddyOutput { message: Some(message), exit: false },
        _ => BuddyOutput { message: None, exit: false },
    }
}

} // verus!
