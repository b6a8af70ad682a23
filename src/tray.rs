use vstd::prelude::*;
use vstd::string::*;
use std::collections::HashMap;
use crate::notify::{text_is, NotificationType};
use crate::snooze_config_store::{repo_snoozed_in, toggled, SnoozeConfigStore};
use crate::text::name_le;

verus! {

#[derive(Debug)]
pub struct RepositoryMenuItemData {
    pub id: String,
    pub name: String,
    pub count: String,
}

#[derive(Debug)]
pub struct AuthorMenuItemData {
    pub id: String,
    pub name: String,
    pub count: String,
}

#[derive(Debug)]
pub enum GuiMessage {
    UpdateRepositories(RepositoryMenuItemData),
    UpdateAuthors(RepositoryMenuItemData),
    Quit,
}

#[derive(Debug)]
pub enum SnoozeMessage {
    SnoozeAuthor(AuthorMenuItemData),
    UnSnoozeAuthor(AuthorMenuItemData),
    SnoozeRepository(RepositoryMenuItemData),
    UnSnoozeRepository(RepositoryMenuItemData),
    ToggleNotificationType(NotificationType),
    ShowMentions,
    ShowSetAsReviewer,
    Quit,
}

/// The menu items that the tray shows, by identifier.
pub struct TrayState {
    pub repository_items: HashMap<String, RepositoryMenuItemData>,
    pub author_items: HashMap<String, RepositoryMenuItemData>,
}

impl TrayState {
    pub fn new() -> (r: TrayState)
        ensures
            r.repository_items@ == Map::<String, RepositoryMenuItemData>::empty(),
            r.author_items@ == Map::<String, RepositoryMenuItemData>::empty(),
    {
        TrayState { repository_items: HashMap::new(), author_items: HashMap::new() }
    }

    pub fn clear(&mut self)
        ensures
            final(self).repository_items@ == Map::<String, RepositoryMenuItemData>::empty(),
            final(self).author_items@ == Map::<String, RepositoryMenuItemData>::empty(),
    {
        self.repository_items.clear();
        self.author_items.clear();
    }
}

/// Seconds in a day.
pub const DAY_SECONDS: i64 = 86400;

/// Seconds in a week.
pub const WEEK_SECONDS: i64 = 604800;

/// Seconds in a month of thirty days.
pub const MONTH_SECONDS: i64 = 2592000;

/// A command of the menu, decoded once from its identifier.
#[derive(Debug)]
pub enum MenuCommand {
    SnoozeRepository { owner: String, repo: String, duration: i64 },
    UnsnoozeRepository { owner: String, repo: String },
    ToggleReason { owner: String, repo: String, reason: String },
    Quit,
}

/// A menu command with its texts as sequences of characters.
pub enum CommandSpec {
    SnoozeRepository(Seq<char>, Seq<char>, i64),
    UnsnoozeRepository(Seq<char>, Seq<char>),
    ToggleReason(Seq<char>, Seq<char>, Seq<char>),
    Quit,
}

impl MenuCommand {
    pub open spec fn spec_of(&self) -> CommandSpec {
        match self {
            MenuCommand::SnoozeRepository { owner, repo, duration } => CommandSpec::SnoozeRepository(
                owner@,
                repo@,
                *duration,
            ),
            MenuCommand::UnsnoozeRepository { owner, repo } => CommandSpec::UnsnoozeRepository(
                owner@,
                repo@,
            ),
            MenuCommand::ToggleReason { owner, repo, reason } => CommandSpec::ToggleReason(
                owner@,
                repo@,
                reason@,
            ),
            MenuCommand::Quit => CommandSpec::Quit,
        }
    }
}

pub open spec fn opt_spec(c: Option<MenuCommand>) -> Option<CommandSpec> {
    match c {
        Some(x) => Some(x.spec_of()),
        None => None,
    }
}

/// Index of the first ':' in `s`, or -1.
pub open spec fn first_colon(s: Seq<char>) -> int
    decreases s.len(),
{
    if s.len() == 0 {
        -1
    } else if s[0] == ':' {
        0
    } else {
        let r = first_colon(s.drop_first());
        if r < 0 {
            -1
        } else {
            r + 1
        }
    }
}

/// `s` cut at its first ':' (which goes), if it has one.
pub open spec fn split_colon(s: Seq<char>) -> Option<(Seq<char>, Seq<char>)> {
    let i = first_colon(s);
    if i < 0 {
        None
    } else {
        Some((s.take(i), s.skip(i + 1)))
    }
}

pub open spec fn snooze_duration(action: Seq<char>) -> Option<i64> {
    if action == "day"@ {
        Some(DAY_SECONDS)
    } else if action == "week"@ {
        Some(WEEK_SECONDS)
    } else if action == "month"@ {
        Some(MONTH_SECONDS)
    } else {
        None
    }
}

/// The command for (owner, repo, command, action) taken from an identifier.
pub open spec fn repo_command_for(owner: Seq<char>, repo: Seq<char>, command: Seq<char>, action: Seq<char>) -> Option<CommandSpec> {
    if command == "snooze"@ {
        match snooze_duration(action) {
            Some(d) => Some(CommandSpec::SnoozeRepository(owner, repo, d)),
            None => None,
        }
    } else if command == "unsnooze"@ {
        Some(CommandSpec::UnsnoozeRepository(owner, repo))
    } else if command == "reason"@ {
        Some(CommandSpec::ToggleReason(owner, repo, action))
    } else {
        None
    }
}

/// The command that a menu identifier stands for: "quit", or
/// "repo:<owner>:<repo>:<command>:<action>".
pub open spec fn menu_command_for(id: Seq<char>) -> Option<CommandSpec> {
    if id == "quit"@ {
        Some(CommandSpec::Quit)
    } else if id.len() >= 5 && id.take(5) == "repo:"@ {
        match split_colon(id.skip(5)) {
            Some((owner, r1)) => match split_colon(r1) {
                Some((repo, r2)) => match split_colon(r2) {
                    Some((command, action)) => repo_command_for(owner, repo, command, action),
                    None => None,
                },
                None => None,
            },
            None => None,
        }
    } else {
        None
    }
}

/// The identifier of a repository's menu item.
pub open spec fn action_id_for(owner: Seq<char>, repo: Seq<char>, action: Seq<char>) -> Seq<char> {
    "repo:"@ + owner + ":"@ + repo + ":"@ + action
}

/// Builds the identifier of a repository's menu item.
pub fn repo_action_id(owner: &str, repo: &str, action: &str) -> (r: String)
    ensures
        r@ == action_id_for(owner@, repo@, action@),
{
    let mut r = String::from_str("repo:");
    r.append(owner);
    r.append(":");
    r.append(repo);
    r.append(":");
    r.append(action);
    r
}

proof fn lemma_first_colon(s: Seq<char>, i: int)
    requires
        0 <= i <= s.len(),
        forall|j: int| 0 <= j < i ==> s[j] != ':',
    ensures
        i < s.len() && s[i] == ':' ==> first_colon(s) == i,
        i == s.len() ==> first_colon(s) == -1,
    decreases i,
{
    if i > 0 {
        let t = s.drop_first();
        assert forall|j: int| 0 <= j < i - 1 implies t[j] != ':' by {
            assert(t[j] == s[j + 1]);
        }
        lemma_first_colon(t, i - 1);
    }
}

/// Index of the first ':' in `s`, if any.
fn find_colon(s: &str) -> (r: Option<usize>)
    ensures
        r is Some ==> r->0 as int == first_colon(s@),
        r is None ==> first_colon(s@) == -1,
{
    let n = s.unicode_len();
    let mut i: usize = 0;
    while i < n
        invariant
            n == s@.len(),
            i <= n,
            forall|j: int| 0 <= j < i ==> s@[j] != ':',
        decreases n - i,
    {
        if s.get_char(i) == ':' {
            proof {
                lemma_first_colon(s@, i as int);
            }
            return Some(i);
        }
        i += 1;
    }
    proof {
        lemma_first_colon(s@, i as int);
    }
    None
}

/// Cuts `s` at its first ':'.
fn split_colon_exec(s: &str) -> (r: Option<(String, String)>)
    ensures
        match r {
            Some((a, b)) => split_colon(s@) == Some((a@, b@)),
            None => split_colon(s@) is None,
        },
{
    match find_colon(s) {
        Some(i) => {
            let n = s.unicode_len();
            proof {
                let k = first_colon(s@);
                assert(0 <= k < s@.len()) by {
                    lemma_first_colon_bound(s@);
                }
            }
            let a = s.substring_char(0, i).to_owned();
            let b = s.substring_char(i + 1, n).to_owned();
            assert(a@ =~= s@.take(i as int));
            assert(b@ =~= s@.skip(i + 1));
            Some((a, b))
        },
        None => None,
    }
}

proof fn lemma_first_colon_bound(s: Seq<char>)
    ensures
        first_colon(s) < s.len(),
        first_colon(s) >= 0 ==> s[first_colon(s)] == ':',
    decreases s.len(),
{
    if s.len() > 0 && s[0] != ':' {
        lemma_first_colon_bound(s.drop_first());
    }
}

proof fn lemma_split_colon_join(a: Seq<char>, b: Seq<char>)
    requires
        !a.contains(':'),
    ensures
        split_colon(a + ":"@ + b) == Some((a, b)),
{
    reveal_strlit(":");
    let s = a + ":"@ + b;
    assert forall|j: int| 0 <= j < a.len() implies s[j] != ':' by {
        assert(s[j] == a[j]);
        if a[j] == ':' {
            assert(a.contains(':'));
        }
    }
    assert(s[a.len() as int] == ':');
    lemma_first_colon(s, a.len() as int);
    assert(s.take(a.len() as int) =~= a);
    assert(s.skip(a.len() as int + 1) =~= b);
}

/// Decoding the identifier built for a repository's menu item gives back the
/// command it was built from, when neither the owner, the repository nor the
/// command holds a ':'.
pub proof fn lemma_menu_id_round_trip(owner: Seq<char>, repo: Seq<char>, command: Seq<char>, action: Seq<char>)
    requires
        !owner.contains(':'),
        !repo.contains(':'),
        !command.contains(':'),
    ensures
        menu_command_for(action_id_for(owner, repo, command + ":"@ + action)) == repo_command_for(
            owner,
            repo,
            command,
            action,
        ),
{
    reveal_strlit("repo:");
    reveal_strlit("quit");
    reveal_strlit(":");
    let tail = command + ":"@ + action;
    let id = action_id_for(owner, repo, tail);
    let rest = owner + ":"@ + (repo + ":"@ + tail);
    assert(id =~= "repo:"@ + rest);
    assert(id[0] == 'r');
    assert(id != "quit"@);
    assert(id.take(5) =~= "repo:"@);
    assert(id.skip(5) =~= rest);
    lemma_split_colon_join(owner, repo + ":"@ + tail);
    lemma_split_colon_join(repo, tail);
    lemma_split_colon_join(command, action);
}

/// Decodes a menu identifier into its command; `None` for an identifier
/// that names none.
pub fn parse_menu_id(id: &str) -> (r: Option<MenuCommand>)
    ensures
        opt_spec(r) == menu_command_for(id@),
{
    let s = id.to_owned();
    if text_is(&s, "quit") {
        return Some(MenuCommand::Quit);
    }
    let n = id.unicode_len();
    if n < 5 {
        return None;
    }
    let head = id.substring_char(0, 5).to_owned();
    if !text_is(&head, "repo:") {
        assert(head@ =~= id@.take(5));
        return None;
    }
    assert(head@ =~= id@.take(5));
    let rest = id.substring_char(5, n);
    assert(rest@ =~= id@.skip(5));
    let (owner, r1) = match split_colon_exec(rest) {
        Some(p) => p,
        None => return None,
    };
    let (repo, r2) = match split_colon_exec(r1.as_str()) {
        Some(p) => p,
        None => return None,
    };
    let (command, action) = match split_colon_exec(r2.as_str()) {
        Some(p) => p,
        None => return None,
    };
    if text_is(&command, "snooze") {
        if text_is(&action, "day") {
            Some(MenuCommand::SnoozeRepository { owner, repo, duration: DAY_SECONDS })
        } else if text_is(&action, "week") {
            Some(MenuCommand::SnoozeRepository { owner, repo, duration: WEEK_SECONDS })
        } else if text_is(&action, "month") {
            Some(MenuCommand::SnoozeRepository { owner, repo, duration: MONTH_SECONDS })
        } else {
            None
        }
    } else if text_is(&command, "unsnooze") {
        Some(MenuCommand::UnsnoozeRepository { owner, repo })
    } else if text_is(&command, "reason") {
        Some(MenuCommand::ToggleReason { owner, repo, reason: action })
    } else {
        None
    }
}

/// What applying a menu command did.
#[derive(PartialEq, Eq, Structural, Clone, Copy, Debug)]
pub enum CommandOutcome {
    Snoozed,
    /// Whether the repository had a row.
    Unsnoozed(bool),
    /// The new state of the reason (true: now suppressed).
    Toggled(bool),
    /// Cancellation is asked for.
    Quit,
    /// The end of the snooze does not fit in a unix second; nothing changed.
    OutOfRange,
}

/// The end of a snooze of `duration` seconds from `now`, if it fits in a
/// unix second.
pub fn snooze_end(now: i64, duration: i64) -> (r: Option<i64>)
    ensures
        r == (if i64::MIN <= now + duration <= i64::MAX {
            Some((now + duration) as i64)
        } else {
            None
        }),
{
    let fits = if duration >= 0 {
        now <= i64::MAX - duration
    } else {
        now >= i64::MIN - duration
    };
    if fits {
        Some(now + duration)
    } else {
        None
    }
}

/// Applies a menu command to the rules at the unix second `now`.
pub fn apply_command(store: &mut SnoozeConfigStore, cmd: &MenuCommand, now: i64) -> (r: CommandOutcome)
    requires
        old(store).wf(),
    ensures
        final(store).wf(),
        match cmd.spec_of() {
            CommandSpec::SnoozeRepository(o, rp, d) => if i64::MIN <= now + d <= i64::MAX {
                &&& r == CommandOutcome::Snoozed
                &&& final(store).snoozes() == old(store).snoozes().insert((o, rp), Some((now + d) as i64))
                &&& final(store).reasons() == old(store).reasons()
            } else {
                &&& r == CommandOutcome::OutOfRange
                &&& final(store).snoozes() == old(store).snoozes()
                &&& final(store).reasons() == old(store).reasons()
            },
            CommandSpec::UnsnoozeRepository(o, rp) => {
                &&& r == CommandOutcome::Unsnoozed(old(store).snoozes().contains_key((o, rp)))
                &&& final(store).snoozes() == old(store).snoozes().remove((o, rp))
                &&& final(store).reasons() == old(store).reasons()
            },
            CommandSpec::ToggleReason(o, rp, x) => {
                &&& r == CommandOutcome::Toggled(toggled(old(store).reasons(), (o, rp, x)).0)
                &&& final(store).reasons() == toggled(old(store).reasons(), (o, rp, x)).1
                &&& final(store).snoozes() == old(store).snoozes()
            },
            CommandSpec::Quit => {
                &&& r == CommandOutcome::Quit
                &&& final(store).snoozes() == old(store).snoozes()
                &&& final(store).reasons() == old(store).reasons()
            },
        },
{
    match cmd {
        MenuCommand::SnoozeRepository { owner, repo, duration } => {
            match snooze_end(now, *duration) {
                Some(until) => {
                    store.snooze_repo(owner.as_str(), repo.as_str(), until);
                    CommandOutcome::Snoozed
                },
                None => CommandOutcome::OutOfRange,
            }
        },
        MenuCommand::UnsnoozeRepository { owner, repo } => {
            let had = store.unsnooze_repo(owner.as_str(), repo.as_str());
            CommandOutcome::Unsnoozed(had)
        },
        MenuCommand::ToggleReason { owner, repo, reason } => {
            let on = store.toggle_reason(owner.as_str(), repo.as_str(), reason.as_str());
            CommandOutcome::Toggled(on)
        },
        MenuCommand::Quit => CommandOutcome::Quit,
    }
}

/// The reasons that the menu offers to suppress, in menu order.
pub open spec fn reason_names() -> Seq<Seq<char>> {
    seq![
        "assign"@,
        "author"@,
        "ci_activity"@,
        "comment"@,
        "manual"@,
        "mention"@,
        "push"@,
        "review_requested"@,
        "security_alert"@,
        "state_change"@,
        "subscribed"@,
        "team_mention"@,
        "your_activity"@,
    ]
}

pub fn all_reasons() -> (r: Vec<String>)
    ensures
        r@.len() == reason_names().len(),
        forall|i: int| 0 <= i < r@.len() ==> #[trigger] r@[i]@ == reason_names()[i],
{
    let mut v: Vec<String> = Vec::new();
    v.push(String::from_str("assign"));
    v.push(String::from_str("author"));
    v.push(String::from_str("ci_activity"));
    v.push(String::from_str("comment"));
    v.push(String::from_str("manual"));
    v.push(String::from_str("mention"));
    v.push(String::from_str("push"));
    v.push(String::from_str("review_requested"));
    v.push(String::from_str("security_alert"));
    v.push(String::from_str("state_change"));
    v.push(String::from_str("subscribed"));
    v.push(String::from_str("team_mention"));
    v.push(String::from_str("your_activity"));
    v
}

/// `r` lists every known repository once, in the order of repository names.
pub open spec fn is_inventory_listing(store: SnoozeConfigStore, r: Seq<(String, String)>) -> bool {
    &&& r.len() == store.row_count()
    &&& forall|m: int| 0 <= m < r.len() ==> store.snoozes().contains_key((#[trigger] r[m].0@, r[m].1@))
    &&& forall|k: (Seq<char>, Seq<char>)|
        store.snoozes().contains_key(k) ==> exists|m: int| 0 <= m < r.len() && (#[trigger] r[m].0@, r[m].1@) == k
    &&& forall|a: int, b: int| 0 <= a < b < r.len() ==> (r[a].0@, r[a].1@) != (r[b].0@, r[b].1@)
    &&& forall|a: int, b: int| 0 <= a < b < r.len() ==> name_le(r[a].1@, r[b].1@)
}

/// `r` lists every repository snoozed at `now` once with its end, the latest
/// end first.
pub open spec fn is_active_listing(store: SnoozeConfigStore, now: i64, r: Seq<(String, String, i64)>) -> bool {
    &&& forall|m: int|
        0 <= m < r.len() ==> repo_snoozed_in(store.snoozes(), (#[trigger] r[m].0@, r[m].1@), now)
            && store.snoozes()[(r[m].0@, r[m].1@)] == Some(r[m].2)
    &&& forall|k: (Seq<char>, Seq<char>)|
        repo_snoozed_in(store.snoozes(), k, now) ==> exists|m: int|
            0 <= m < r.len() && (#[trigger] r[m].0@, r[m].1@) == k
    &&& forall|a: int, b: int| 0 <= a < b < r.len() ==> (r[a].0@, r[a].1@) != (r[b].0@, r[b].1@)
    &&& forall|a: int, b: int| 0 <= a < b < r.len() ==> r[a].2 >= r[b].2
}

/// What the menu shows: the inventory, the running snoozes, and for each
/// repository of the inventory which of the offered reasons are suppressed.
pub struct MenuSnapshot {
    pub inventory: Vec<(String, String)>,
    pub active: Vec<(String, String, i64)>,
    pub reasons: Vec<Vec<bool>>,
}

/// The snapshot of the rules at the unix second `now`.
pub fn render_snapshot(store: &SnoozeConfigStore, now: i64) -> (r: MenuSnapshot)
    requires
        store.wf(),
    ensures
        is_inventory_listing(*store, r.inventory@),
        is_active_listing(*store, now, r.active@),
        r.reasons@.len() == r.inventory@.len(),
        forall|i: int|
            0 <= i < r.reasons@.len() ==> (#[trigger] r.reasons@[i])@.len() == reason_names().len(),
        forall|i: int, j: int|
            0 <= i < r.reasons@.len() && 0 <= j < reason_names().len() ==> #[trigger] r.reasons@[i]@[j]
                == store.reasons().contains((r.inventory@[i].0@, r.inventory@[i].1@, reason_names()[j])),
{
    let inventory = store.list_all_repos();
    let active = store.list_snoozed_repos(now);
    let names = all_reasons();
    let mut reasons: Vec<Vec<bool>> = Vec::new();
    let mut i: usize = 0;
    while i < inventory.len()
        invariant
            store.wf(),
            i <= inventory@.len(),
            reasons@.len() == i,
            names@.len() == reason_names().len(),
            forall|j: int| 0 <= j < names@.len() ==> #[trigger] names@[j]@ == reason_names()[j],
            forall|a: int| 0 <= a < i ==> (#[trigger] reasons@[a])@.len() == reason_names().len(),
            forall|a: int, j: int|
                0 <= a < i && 0 <= j < reason_names().len() ==> #[trigger] reasons@[a]@[j]
                    == store.reasons().contains((inventory@[a].0@, inventory@[a].1@, reason_names()[j])),
        decreases inventory@.len() - i,
    {
        let mut row: Vec<bool> = Vec::new();
        let mut j: usize = 0;
        while j < names.len()
            invariant
                store.wf(),
                i < inventory@.len(),
                j <= names@.len(),
                row@.len() == j,
                names@.len() == reason_names().len(),
                forall|b: int| 0 <= b < names@.len() ==> #[trigger] names@[b]@ == reason_names()[b],
                forall|b: int|
                    0 <= b < j ==> #[trigger] row@[b] == store.reasons().contains(
                        (inventory@[i as int].0@, inventory@[i as int].1@, reason_names()[b]),
                    ),
            decreases names@.len() - j,
        {
            let on = store.is_repo_snoozed_for_reason(
                inventory[i].0.as_str(),
                inventory[i].1.as_str(),
                names[j].as_str(),
            );
            row.push(on);
            j += 1;
        }
        reasons.push(row);
        i += 1;
    }
    MenuSnapshot { inventory, active, reasons }
}

} // verus!
