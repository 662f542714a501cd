//! The interactive selector: its state, what a key press does to it, what the
//! outcome of a write does to it, and what a frame shows.
//!
//! The selector decides; its caller reads the keys, writes the resolver
//! configuration and draws the frames.

use crate::dns::{
    all_dns_options, builtin_providers, current_dns_servers, describe_servers, is_word,
    lemma_written_servers_are_read_back, nameservers, parse_lines, reset_name, reset_option,
    resolv_conf, servers_summary, DnsOption, Provider,
};
use crate::text::{join, join_strings, texts};
use vstd::prelude::*;

verus! {

broadcast use vstd::string::group_string_axioms;

/// How long one wait for a key lasts at most, in milliseconds.
pub const POLL_TIMEOUT_MS: u64 = 300;

/// The number of terminal rows that the selector occupies.
pub const INLINE_HEIGHT: u16 = 20;

/// The number of rows of the region that shows the current servers.
pub const CURRENT_HEIGHT: u16 = 3;

/// The number of rows of the region that shows a status message.
pub const STATUS_HEIGHT: u16 = 3;

/// A key press, as far as the selector tells keys apart.
#[derive(Debug, Clone, Copy, PartialEq, Eq, Structural)]
pub enum Key {
    /// The key of a character.
    Char(char),
    /// The up arrow.
    Up,
    /// The down arrow.
    Down,
    /// The enter key.
    Enter,
    /// Any other key.
    Other,
}

/// What a key press asks for.
#[derive(Debug, Clone, Copy, PartialEq, Eq, Structural)]
pub enum Command {
    /// Leave the selector.
    Quit,
    /// Reset the resolver to automatic resolution.
    Reset,
    /// Move the highlight up.
    Up,
    /// Move the highlight down.
    Down,
    /// Apply the highlighted provider.
    Apply,
    /// Nothing.
    Nothing,
}

/// A resolver configuration to be written: for which provider, and whether
/// as a reset or as a switch.
#[derive(Debug)]
pub struct WriteRequest {
    pub provider: DnsOption,
    pub reset: bool,
}

/// What the caller is to do after a key press.
#[derive(Debug)]
pub enum Action {
    /// Go on with the next frame.
    Stay,
    /// Leave the loop.
    Quit,
    /// Write the resolver configuration, then report the outcome to
    /// `Selector::finish_write`.
    Write(WriteRequest),
}

/// What an `Action` holds.
pub enum ActionView {
    Stay,
    Quit,
    Write { provider: Provider, reset: bool },
}

impl View for Action {
    type V = ActionView;

    open spec fn view(&self) -> ActionView {
        match self {
            Action::Stay => ActionView::Stay,
            Action::Quit => ActionView::Quit,
            Action::Write(request) => ActionView::Write {
                provider: request.provider@,
                reset: request.reset,
            },
        }
    }
}

/// The state of the selector: the catalog, the index of the highlighted
/// provider, the status message if there is one, and the current servers as
/// they are shown.
pub struct Selector {
    options: Vec<DnsOption>,
    selected: usize,
    msg: Option<String>,
    current_dns: String,
}

/// What a `Selector` holds.
pub struct SelectorView {
    pub options: Seq<Provider>,
    pub selected: int,
    pub status: Option<Seq<char>>,
    pub current: Seq<char>,
}

/// One entry of the list of a frame.
#[derive(Debug)]
pub struct Row {
    pub name: String,
    pub servers: String,
}

/// What one frame shows, from top to bottom: the current servers in a region
/// of `current_height` rows, the providers in a region of `list_height` rows
/// with the entry at `highlighted` set off, and the status message, if there
/// is one, in a region of `status_height` rows.
#[derive(Debug)]
pub struct Screen {
    pub current: String,
    pub rows: Vec<Row>,
    pub highlighted: usize,
    pub status: Option<String>,
    pub current_height: u16,
    pub list_height: u16,
    pub status_height: u16,
}

/// What a key press asks for: `q` to quit, `r` to reset, the arrows to move
/// the highlight, enter to apply the highlighted provider; any other key
/// asks for nothing.
pub open spec fn command_of(key: Key) -> Command {
    match key {
        Key::Char(c) => if c == 'q' {
            Command::Quit
        } else if c == 'r' {
            Command::Reset
        } else {
            Command::Nothing
        },
        Key::Up => Command::Up,
        Key::Down => Command::Down,
        Key::Enter => Command::Apply,
        Key::Other => Command::Nothing,
    }
}

/// The index that is highlighted after a key press, in a catalog of `len`
/// providers: one less after the up arrow but not below 0, one more after the
/// down arrow but not above `len - 1`, the same after any other key.
pub open spec fn next_selected(selected: int, len: int, key: Key) -> int {
    match command_of(key) {
        Command::Up => if selected > 0 {
            selected - 1
        } else {
            0
        },
        Command::Down => if selected + 1 < len {
            selected + 1
        } else {
            len - 1
        },
        _ => selected,
    }
}

/// The index that is highlighted after a sequence of key presses.
pub open spec fn selected_after(selected: int, len: int, keys: Seq<Key>) -> int
    decreases keys.len(),
{
    if keys.len() == 0 {
        selected
    } else {
        next_selected(selected_after(selected, len, keys.drop_last()), len, keys.last())
    }
}

/// What the caller is to do after a key press in state `state`.
pub open spec fn action_for(state: SelectorView, key: Key) -> ActionView {
    match command_of(key) {
        Command::Quit => ActionView::Quit,
        Command::Reset => ActionView::Write {
            provider: Provider { name: reset_name(), servers: Seq::empty() },
            reset: true,
        },
        Command::Apply => ActionView::Write {
            provider: state.options[state.selected],
            reset: false,
        },
        _ => ActionView::Stay,
    }
}

/// The status message after a write.
pub open spec fn outcome_message(provider: Provider, reset: bool, ok: bool) -> Seq<char> {
    if reset {
        if ok {
            "Reset DNS to Automatic/ISP"@
        } else {
            "Failed to reset (are you root?)"@
        }
    } else {
        if ok {
            "Switched DNS to: "@ + provider.name
        } else {
            "Failed to switch (are you root?)"@
        }
    }
}

/// The current servers as they are shown after a write: those of the
/// provider that was written, or, after a failure, what was shown before.
pub open spec fn current_after(
    current: Seq<char>,
    provider: Provider,
    reset: bool,
    ok: bool,
) -> Seq<char> {
    if !ok {
        current
    } else if reset {
        "Automatic/ISP"@
    } else {
        servers_summary(provider.servers)
    }
}

/// How the servers of a provider are shown in the list: in parentheses, with
/// `", "` between them, or `(Automatic)` where there is none.
pub open spec fn servers_label(servers: Seq<Seq<char>>) -> Seq<char> {
    if servers.len() == 0 {
        "(Automatic)"@
    } else {
        "("@ + join(servers, ", "@) + ")"@
    }
}

/// The heights of the three regions of a frame of `height` rows: that of the
/// status region is 0 without a message, and the list has what the other two
/// leave, at least 0.
pub open spec fn region_heights(height: u16, has_status: bool) -> (u16, u16, u16) {
    let status: u16 = if has_status {
        STATUS_HEIGHT
    } else {
        0
    };
    let list: u16 = if height >= CURRENT_HEIGHT + status {
        (height - CURRENT_HEIGHT - status) as u16
    } else {
        0
    };
    (CURRENT_HEIGHT, list, status)
}

/// Navigation keeps the highlight within the catalog: from an index within
/// `0..len`, no sequence of key presses leads below 0 or above `len - 1`.
pub proof fn lemma_highlight_stays_within(selected: int, len: int, keys: Seq<Key>)
    requires
        0 <= selected < len,
    ensures
        0 <= selected_after(selected, len, keys) < len,
    decreases keys.len(),
{
    if keys.len() > 0 {
        lemma_highlight_stays_within(selected, len, keys.drop_last());
    }
}

/// A failed write is always reported by a message that is not empty.
pub proof fn lemma_failure_message_not_empty(provider: Provider, reset: bool)
    ensures
        outcome_message(provider, reset, false).len() > 0,
{
    reveal_strlit("Failed to reset (are you root?)");
    reveal_strlit("Failed to switch (are you root?)");
}

/// What a key press asks for: see `command_of`.
pub fn command_for(key: Key) -> (command: Command)
    ensures
        command == command_of(key),
{
    match key {
        Key::Char(c) => if c == 'q' {
            Command::Quit
        } else if c == 'r' {
            Command::Reset
        } else {
            Command::Nothing
        },
        Key::Up => Command::Up,
        Key::Down => Command::Down,
        Key::Enter => Command::Apply,
        Key::Other => Command::Nothing,
    }
}

/// After a write that succeeded, the selector shows as current servers what
/// reading the resolver configuration back would show, where the provider's
/// name holds no line break, each of its servers is a word, and a reset
/// writes a provider without servers.
pub proof fn lemma_shown_after_success_is_read_back(
    current: Seq<char>,
    provider: Provider,
    reset: bool,
)
    requires
        forall|i: int| 0 <= i < provider.name.len() ==> #[trigger] provider.name[i] != '\n',
        forall|k: int| 0 <= k < provider.servers.len() ==> is_word(#[trigger] provider.servers[k]),
        reset ==> provider.servers.len() == 0,
    ensures
        current_after(current, provider, reset, true) == servers_summary(
            nameservers(resolv_conf(provider)),
        ),
{
    lemma_written_servers_are_read_back(provider);
}

/// The heights of the three regions: see `region_heights`.
pub fn layout_heights(height: u16, has_status: bool) -> (heights: (u16, u16, u16))
    ensures
        heights == region_heights(height, has_status),
{
    let status: u16 = if has_status {
        STATUS_HEIGHT
    } else {
        0
    };
    let taken: u16 = CURRENT_HEIGHT + status;
    let list: u16 = if height >= taken {
        height - taken
    } else {
        0
    };
    (CURRENT_HEIGHT, list, status)
}

/// How the servers are shown in the list: see `servers_label`.
pub fn label_servers(servers: &Vec<String>) -> (out: String)
    ensures
        out@ == servers_label(texts(servers@)),
{
    if servers.len() == 0 {
        "(Automatic)".to_string()
    } else {
        let mut out = "(".to_string();
        let joined = join_strings(servers, ", ");
        out.append(joined.as_str());
        out.append(")");
        out
    }
}

impl View for Selector {
    type V = SelectorView;

    closed spec fn view(&self) -> SelectorView {
        SelectorView {
            options: self.options.deep_view(),
            selected: self.selected as int,
            status: match self.msg {
                Some(m) => Some(m@),
                None => None,
            },
            current: self.current_dns@,
        }
    }
}

impl Selector {
    #[verifier::type_invariant]
    spec fn within_catalog(self) -> bool {
        self.selected < self.options.len()
    }

    /// A selector over `options` that highlights the first provider, shows
    /// `current_dns` as the current servers and has no status message.
    pub fn new(options: Vec<DnsOption>, current_dns: String) -> (selector: Selector)
        requires
            options.len() > 0,
        ensures
            selector@ == (SelectorView {
                options: options.deep_view(),
                selected: 0,
                status: None,
                current: current_dns@,
            }),
    {
        Selector { options, selected: 0, msg: None, current_dns }
    }

    /// The selector as it starts: over the built-in providers and those of the
    /// lines of the user's configuration, with the first provider highlighted,
    /// without a status message, and with the servers that the resolver
    /// configuration `resolv_conf` names shown as current.
    pub fn start(user_lines: &Vec<String>, resolv_conf: &str) -> (selector: Selector)
        ensures
            selector@ == (SelectorView {
                options: builtin_providers() + parse_lines(texts(user_lines@)),
                selected: 0,
                status: None,
                current: servers_summary(nameservers(resolv_conf@)),
            }),
    {
        let options = all_dns_options(user_lines);
        assert(options.deep_view().len() == options.len());
        Selector::new(options, current_dns_servers(resolv_conf))
    }

    /// The catalog.
    pub fn options(&self) -> (options: &Vec<DnsOption>)
        ensures
            options.deep_view() == self@.options,
            0 <= self@.selected < options.len(),
    {
        proof {
            use_type_invariant(self);
        }
        &self.options
    }

    /// The index of the highlighted provider.
    pub fn selected(&self) -> (selected: usize)
        ensures
            selected == self@.selected,
            0 <= self@.selected < self@.options.len(),
    {
        proof {
            use_type_invariant(self);
        }
        self.selected
    }

    /// The status message, if there is one.
    pub fn status(&self) -> (status: Option<&str>)
        ensures
            status.is_some() == self@.status.is_some(),
            status.is_some() ==> status.unwrap()@ == self@.status.unwrap(),
    {
        match &self.msg {
            Some(m) => Some(m.as_str()),
            None => None,
        }
    }

    /// The current servers, as they are shown.
    pub fn current_dns(&self) -> (current: &str)
        ensures
            current@ == self@.current,
    {
        self.current_dns.as_str()
    }

    /// Takes a key press: moves the highlight as `next_selected` says and
    /// leaves the rest of the state as it is, and tells what the caller is to
    /// do as `action_for` says.
    pub fn handle_key(&mut self, key: Key) -> (action: Action)
        ensures
            final(self)@ == (SelectorView {
                selected: next_selected(old(self)@.selected, old(self)@.options.len() as int, key),
                ..old(self)@
            }),
            0 <= final(self)@.selected < final(self)@.options.len(),
            action@ == action_for(old(self)@, key),
    {
        proof {
            use_type_invariant(&*self);
        }
        match command_for(key) {
            Command::Quit => Action::Quit,
            Command::Reset => Action::Write(WriteRequest { provider: reset_option(), reset: true }),
            Command::Up => {
                if self.selected > 0 {
                    self.selected = self.selected - 1;
                }
                Action::Stay
            },
            Command::Down => {
                if self.selected + 1 < self.options.len() {
                    self.selected = self.selected + 1;
                }
                Action::Stay
            },
            Command::Apply => {
                let provider = self.options[self.selected].clone();
                Action::Write(WriteRequest { provider, reset: false })
            },
            Command::Nothing => Action::Stay,
        }
    }

    /// Takes the outcome of the write that `request` asked for. The status
    /// message becomes `outcome_message`. After a success the current
    /// servers are shown as those of the provider that was written; after a
    /// failure they stay as they were. The highlight and the catalog stay.
    pub fn finish_write(&mut self, request: &WriteRequest, ok: bool)
        ensures
            final(self)@ == (SelectorView {
                status: Some(outcome_message(request.provider@, request.reset, ok)),
                current: current_after(old(self)@.current, request.provider@, request.reset, ok),
                ..old(self)@
            }),
            !ok ==> final(self)@.status.unwrap().len() > 0,
    {
        proof {
            use_type_invariant(&*self);
            lemma_failure_message_not_empty(request.provider@, request.reset);
        }
        if request.reset {
            if ok {
                self.current_dns = "Automatic/ISP".to_string();
                self.msg = Some("Reset DNS to Automatic/ISP".to_string());
            } else {
                self.msg = Some("Failed to reset (are you root?)".to_string());
            }
        } else {
            if ok {
                self.current_dns = describe_servers(&request.provider.servers);
                let mut msg = "Switched DNS to: ".to_string();
                msg.append(request.provider.name.as_str());
                self.msg = Some(msg);
            } else {
                self.msg = Some("Failed to switch (are you root?)".to_string());
            }
        }
    }

    /// What a frame of `height` rows shows in this state.
    pub fn screen(&self, height: u16) -> (screen: Screen)
        ensures
            screen.current@ == "Servers: "@ + self@.current,
            screen.rows.len() == self@.options.len(),
            forall|i: int|
                0 <= i < screen.rows.len() ==> (#[trigger] screen.rows[i]).name@
                    == self@.options[i].name && screen.rows[i].servers@ == servers_label(
                    self@.options[i].servers,
                ),
            screen.highlighted == self@.selected,
            screen.highlighted < screen.rows.len(),
            screen.status.is_some() == self@.status.is_some(),
            screen.status.is_some() ==> screen.status.unwrap()@ == self@.status.unwrap(),
            (screen.current_height, screen.list_height, screen.status_height) == region_heights(
                height,
                self@.status.is_some(),
            ),
    {
        proof {
            use_type_invariant(self);
        }
        let mut current = "Servers: ".to_string();
        current.append(self.current_dns.as_str());
        let mut rows: Vec<Row> = Vec::new();
        let mut i: usize = 0;
        while i < self.options.len()
            invariant
                i <= self.options.len(),
                rows.len() == i,
                forall|j: int|
                    0 <= j < i ==> (#[trigger] rows[j]).name@ == self.options[j]@.name
                        && rows[j].servers@ == servers_label(self.options[j]@.servers),
            decreases self.options.len() - i,
        {
            let option = &self.options[i];
            rows.push(Row { name: option.name.clone(), servers: label_servers(&option.servers) });
            i += 1;
        }
        let status = match &self.msg {
            Some(m) => Some(m.clone()),
            None => None,
        };
        let (current_height, list_height, status_height) = layout_heights(height, status.is_some());
        Screen {
            current,
            rows,
            highlighted: self.selected,
            status,
            current_height,
            list_height,
            status_height,
        }
    }
}

} // verus!
