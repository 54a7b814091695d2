//! What a front end shows of a conversion that runs elsewhere: the lines
//! that it logged so far, and how far it has come.

use vstd::prelude::*;

verus! {

/// How far a conversion has come.
#[derive(Debug, Clone, PartialEq, Eq)]
pub enum ConversionStatus {
    Idle,
    Running,
    Done,
    Failed(String),
}

/// What a running conversion sends to the front end.
#[derive(Debug, Clone, PartialEq, Eq)]
pub enum LogMessage {
    /// One line of the progress log.
    Line(String),
    /// The conversion has ended; `message` says how.
    Finished { success: bool, message: String },
}

/// What one look at the channel from the conversion finds.
#[derive(Debug, Clone, PartialEq, Eq)]
pub enum Delivery {
    /// A message has come.
    Message(LogMessage),
    /// Nothing has come yet.
    Empty,
    /// The conversion is gone without having said how it ended.
    Disconnected,
}

/// The log and the status that a front end shows.
#[derive(Debug, Clone, PartialEq, Eq)]
pub struct LogPanel {
    pub log_lines: Vec<String>,
    pub status: ConversionStatus,
    /// Whether a conversion is being listened to.
    pub listening: bool,
}

/// A status as contracts see it.
pub enum StatusView {
    Idle,
    Running,
    Done,
    Failed(Seq<char>),
}

/// A panel as contracts see it.
pub struct LogPanelView {
    pub log_lines: Seq<Seq<char>>,
    pub status: StatusView,
    pub listening: bool,
}

impl View for ConversionStatus {
    type V = StatusView;

    open spec fn view(&self) -> StatusView {
        match self {
            ConversionStatus::Idle => StatusView::Idle,
            ConversionStatus::Running => StatusView::Running,
            ConversionStatus::Done => StatusView::Done,
            ConversionStatus::Failed(message) => StatusView::Failed(message@),
        }
    }
}

impl View for LogPanel {
    type V = LogPanelView;

    open spec fn view(&self) -> LogPanelView {
        LogPanelView {
            log_lines: self.log_lines@.map_values(|line: String| line@),
            status: self.status@,
            listening: self.listening,
        }
    }
}

impl LogPanelView {
    /// The panel after one look at the channel, and whether to look again
    /// at once. A line is added to the log, and there may be more. The end
    /// of the conversion adds its message to the log, sets the status and
    /// ends the listening. A conversion that is gone has failed. Nothing
    /// changes while nothing has come, or while nothing is listened to.
    pub open spec fn receive(self, delivery: Delivery) -> (LogPanelView, bool) {
        if !self.listening {
            (self, false)
        } else {
            match delivery {
                Delivery::Message(LogMessage::Line(text)) => (
                    LogPanelView { log_lines: self.log_lines.push(text@), ..self },
                    true,
                ),
                Delivery::Message(LogMessage::Finished { success, message }) => (
                    LogPanelView {
                        log_lines: self.log_lines.push(message@),
                        status: if success {
                            StatusView::Done
                        } else {
                            StatusView::Failed(message@)
                        },
                        listening: false,
                    },
                    false,
                ),
                Delivery::Empty => (self, false),
                Delivery::Disconnected => (
                    LogPanelView {
                        status: StatusView::Failed("lost connection to conversion thread"@),
                        listening: false,
                        ..self
                    },
                    false,
                ),
            }
        }
    }
}

impl ConversionStatus {
    /// Whether a conversion is running.
    pub fn is_running(&self) -> (running: bool)
        ensures
            running == (self@ is Running),
    {
        match self {
            ConversionStatus::Running => true,
            _ => false,
        }
    }

    /// The word that the status is shown as.
    pub fn label(&self) -> (text: &'static str)
        ensures
            text@ == match self@ {
                StatusView::Idle => "Idle"@,
                StatusView::Running => "Running..."@,
                StatusView::Done => "Done"@,
                StatusView::Failed(_) => "Failed"@,
            },
    {
        match self {
            ConversionStatus::Idle => "Idle",
            ConversionStatus::Running => "Running...",
            ConversionStatus::Done => "Done",
            ConversionStatus::Failed(_) => "Failed",
        }
    }
}

impl LogPanel {
    /// A panel with an empty log and nothing running.
    pub fn new() -> (panel: LogPanel)
        ensures
            panel@ == (LogPanelView {
                log_lines: Seq::empty(),
                status: StatusView::Idle,
                listening: false,
            }),
    {
        let panel = LogPanel {
            log_lines: Vec::new(),
            status: ConversionStatus::Idle,
            listening: false,
        };
        assert(panel@.log_lines =~= Seq::<Seq<char>>::empty());
        panel
    }

    /// A conversion starts: the log is emptied and the conversion is
    /// listened to.
    pub fn start(&mut self)
        ensures
            final(self)@ == (LogPanelView {
                log_lines: Seq::empty(),
                status: StatusView::Running,
                listening: true,
            }),
    {
        self.log_lines = Vec::new();
        self.status = ConversionStatus::Running;
        self.listening = true;
        assert(self@.log_lines =~= Seq::<Seq<char>>::empty());
    }

    /// Whether a conversion may start: an input is chosen and none is running.
    pub fn can_convert(&self, has_input: bool) -> (allowed: bool)
        ensures
            allowed == (has_input && !(self@.status is Running)),
    {
        has_input && !self.status.is_running()
    }

    /// Takes what one look at the channel found. Answers whether to look
    /// again at once.
    pub fn receive(&mut self, delivery: Delivery) -> (more: bool)
        ensures
            (final(self)@, more) == old(self)@.receive(delivery),
    {
        if !self.listening {
            return false;
        }
        match delivery {
            Delivery::Message(LogMessage::Line(text)) => {
                self.log_lines.push(text);
                assert(self@.log_lines =~= old(self)@.log_lines.push(text@));
                true
            },
            Delivery::Message(LogMessage::Finished { success, message }) => {
                self.log_lines.push(message.clone());
                assert(self@.log_lines =~= old(self)@.log_lines.push(message@));
                if success {
                    self.status = ConversionStatus::Done;
                } else {
                    self.status = ConversionStatus::Failed(message);
                }
                self.listening = false;
                false
            },
            Delivery::Empty => false,
            Delivery::Disconnected => {
                self.status = ConversionStatus::Failed(
                    String::from_str("lost connection to conversion thread"),
                );
                self.listening = false;
                false
            },
        }
    }
}

} // verus!
