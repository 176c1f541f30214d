//! The taskbar button: progress state and value, overlay icon, thumbnail
//! buttons, and the jump list. Each setting is returned as the shell call
//! to make, or none when the window has no taskbar button to update.

use vstd::prelude::*;

verus! {

/// Progress bar states of the taskbar button.
#[derive(Debug, Clone, Copy, PartialEq, Eq, Structural)]
pub enum TaskbarProgressState {
    /// No progress bar shown.
    NoProgress,
    Normal,
    Paused,
    Error,
    Indeterminate,
}

/// The shell's flag for `state` (`TBPF_NOPROGRESS` 0, `TBPF_INDETERMINATE`
/// 1, `TBPF_NORMAL` 2, `TBPF_ERROR` 4, `TBPF_PAUSED` 8).
pub open spec fn progress_flag_of(state: TaskbarProgressState) -> u32 {
    match state {
        TaskbarProgressState::NoProgress => 0,
        TaskbarProgressState::Indeterminate => 1,
        TaskbarProgressState::Normal => 2,
        TaskbarProgressState::Error => 4,
        TaskbarProgressState::Paused => 8,
    }
}

impl TaskbarProgressState {
    /// The shell's flag for this state.
    pub fn progress_flag(&self) -> (flag: u32)
        ensures
            flag == progress_flag_of(*self),
    {
        match self {
            TaskbarProgressState::NoProgress => 0,
            TaskbarProgressState::Indeterminate => 1,
            TaskbarProgressState::Normal => 2,
            TaskbarProgressState::Error => 4,
            TaskbarProgressState::Paused => 8,
        }
    }
}

/// Distinct states are shown with distinct flags.
pub proof fn lemma_progress_flags_distinct(a: TaskbarProgressState, b: TaskbarProgressState)
    ensures
        a != b ==> progress_flag_of(a) != progress_flag_of(b),
{
}

/// A thumbnail toolbar button.
#[derive(Debug, Clone)]
pub struct ThumbnailButton {
    pub id: u32,
    pub icon_path: String,
    pub tooltip: String,
    pub enabled: bool,
    pub visible: bool,
}

/// A jump list entry: a recent file, or a task.
#[derive(Debug, Clone)]
pub struct JumpListEntry {
    pub title: String,
    pub file_path: Option<String>,
    pub icon_path: Option<String>,
}

/// A shell link added to the jump list's tasks.
pub struct JumpListTask {
    /// The file the link opens.
    pub path: String,
    /// The link's description: the entry's title.
    pub description: String,
    /// The icon, when the entry names one.
    pub icon_path: Option<String>,
}

/// The entries of `entries` that name a file, in order: only those become
/// links in the jump list.
pub open spec fn entries_with_file(entries: Seq<JumpListEntry>) -> Seq<JumpListEntry>
    decreases entries.len(),
{
    if entries.len() == 0 {
        Seq::empty()
    } else {
        let rest = entries_with_file(entries.drop_last());
        if entries.last().file_path is Some {
            rest.push(entries.last())
        } else {
            rest
        }
    }
}

/// Whether `task` is the link made for `entry`.
pub open spec fn task_for(task: JumpListTask, entry: JumpListEntry) -> bool {
    &&& entry.file_path is Some
    &&& task.path@ == entry.file_path->0@
    &&& task.description@ == entry.title@
    &&& match entry.icon_path {
        Some(icon) => task.icon_path is Some && task.icon_path->0@ == icon@,
        None => task.icon_path is None,
    }
}

fn clone_option_string(o: &Option<String>) -> (r: Option<String>)
    ensures
        match *o {
            Some(s) => r is Some && r->0@ == s@,
            None => r is None,
        },
{
    match o {
        Some(s) => Some(s.clone()),
        None => None,
    }
}

/// The links that updating the jump list with `entries` adds, one for each
/// entry that names a file, in order.
pub fn jump_list_tasks(entries: &[JumpListEntry]) -> (tasks: Vec<JumpListTask>)
    ensures
        tasks.len() == entries_with_file(entries@).len(),
        forall|i: int|
            0 <= i < tasks.len() ==> task_for(#[trigger] tasks[i], entries_with_file(entries@)[i]),
{
    let mut tasks: Vec<JumpListTask> = Vec::new();
    let mut i: usize = 0;
    while i < entries.len()
        invariant
            i <= entries.len(),
            tasks.len() == entries_with_file(entries@.take(i as int)).len(),
            forall|j: int|
                0 <= j < tasks.len() ==> task_for(
                    #[trigger] tasks[j],
                    entries_with_file(entries@.take(i as int))[j],
                ),
        decreases entries.len() - i,
    {
        let ghost prefix = entries@.take((i + 1) as int);
        assert(prefix.drop_last() =~= entries@.take(i as int));
        let entry = &entries[i];
        match &entry.file_path {
            Some(path) => {
                let task = JumpListTask {
                    path: path.clone(),
                    description: entry.title.clone(),
                    icon_path: clone_option_string(&entry.icon_path),
                };
                assert(task_for(task, entries@[i as int]));
                let ghost before = tasks@;
                tasks.push(task);
                assert(forall|j: int| 0 <= j < before.len() ==> tasks[j] == before[j]);
            },
            None => {},
        }
        i = i + 1;
    }
    assert(entries@.take(i as int) =~= entries@);
    tasks
}

/// A call to the shell's taskbar interface for the window `hwnd`.
pub enum TaskbarCall {
    /// `SetProgressState(hwnd, flag)`.
    SetProgressState { hwnd: usize, flag: u32 },
    /// `SetProgressValue(hwnd, completed, total)`.
    SetProgressValue { hwnd: usize, completed: u64, total: u64 },
    /// `SetOverlayIcon(hwnd, icon, description)`: the icon loaded from
    /// `icon_path`, or no icon (the overlay removed) when it is `None`.
    SetOverlayIcon { hwnd: usize, icon_path: Option<String>, description: String },
}

/// The taskbar button of the player's window: whether the shell's taskbar
/// interface was obtained, and the window it was set up for.
pub struct TaskbarManager {
    pub has_taskbar_list: bool,
    pub hwnd: Option<usize>,
}

impl TaskbarManager {
    /// Whether this manager can update a taskbar button.
    pub open spec fn is_active(&self) -> bool {
        self.has_taskbar_list && self.hwnd is Some
    }

    /// The call that shows `state` on the taskbar button.
    pub fn set_progress_state(&self, state: TaskbarProgressState) -> (call: Option<TaskbarCall>)
        ensures
            !self.is_active() ==> call is None,
            self.is_active() ==> call == Some(
                TaskbarCall::SetProgressState {
                    hwnd: self.hwnd->0,
                    flag: progress_flag_of(state),
                },
            ),
    {
        if self.has_taskbar_list {
            if let Some(hwnd) = self.hwnd {
                return Some(TaskbarCall::SetProgressState { hwnd, flag: state.progress_flag() });
            }
        }
        None
    }

    /// The call that shows `value` out of `max` on the taskbar button.
    pub fn set_progress_value(&self, value: u32, max: u32) -> (call: Option<TaskbarCall>)
        ensures
            !self.is_active() ==> call is None,
            self.is_active() ==> call == Some(
                TaskbarCall::SetProgressValue {
                    hwnd: self.hwnd->0,
                    completed: value as u64,
                    total: max as u64,
                },
            ),
    {
        if self.has_taskbar_list {
            if let Some(hwnd) = self.hwnd {
                return Some(
                    TaskbarCall::SetProgressValue {
                        hwnd,
                        completed: value as u64,
                        total: max as u64,
                    },
                );
            }
        }
        None
    }

    /// The call that sets the overlay icon to the one at `icon_path`
    /// described by `description`, or removes it when `icon_path` is `None`.
    pub fn set_overlay_icon(&self, icon_path: Option<&str>, description: &str) -> (call: Option<
        TaskbarCall,
    >)
        ensures
            !self.is_active() ==> call is None,
            self.is_active() ==> match call {
                Some(TaskbarCall::SetOverlayIcon { hwnd, icon_path: icon, description: d }) => {
                    &&& hwnd == self.hwnd->0
                    &&& d@ == description@
                    &&& match icon_path {
                        Some(p) => icon is Some && icon->0@ == p@,
                        None => icon is None,
                    }
                },
                _ => false,
            },
    {
        if self.has_taskbar_list {
            if let Some(hwnd) = self.hwnd {
                let icon = match icon_path {
                    Some(p) => Some(String::from_str(p)),
                    None => None,
                };
                return Some(
                    TaskbarCall::SetOverlayIcon {
                        hwnd,
                        icon_path: icon,
                        description: String::from_str(description),
                    },
                );
            }
        }
        None
    }
}

} // verus!
