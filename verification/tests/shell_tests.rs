use resona::gpu::{extract_dominant_colors_gpu, GpuArtworkEngine, GpuError};
use resona::windows::taskbar::{
    jump_list_tasks, JumpListEntry, TaskbarCall, TaskbarManager, TaskbarProgressState,
};

#[test]
fn colors_repeat_the_average_pixel() {
    let data = [10u8, 20, 30, 255, 50, 60, 70, 255];
    assert_eq!(extract_dominant_colors_gpu(&data, 2, 1, 3).unwrap(), vec![[30, 40, 50]; 3]);
    let uneven = [1u8, 2, 3, 0, 2, 2, 2, 0, 9];
    assert_eq!(extract_dominant_colors_gpu(&uneven, 2, 1, 1).unwrap(), vec![[1, 2, 2]]);
    assert_eq!(extract_dominant_colors_gpu(&[1, 2, 3], 1, 1, 2).unwrap(), vec![[0, 0, 0]; 2]);
    assert!(extract_dominant_colors_gpu(&data, 2, 1, 0).unwrap().is_empty());
}

#[test]
fn glass_effect_needs_device_and_queue() {
    let data = [1u8, 2, 3, 4];
    let fallback = GpuArtworkEngine::default_for_fallback();
    assert_eq!(fallback.apply_glass_effect(&data, 1, 1), Err(GpuError::DeviceNotInitialized));
    let no_queue = GpuArtworkEngine { has_device: true, has_queue: false };
    assert_eq!(no_queue.apply_glass_effect(&data, 1, 1), Err(GpuError::QueueNotInitialized));
    let ready = GpuArtworkEngine { has_device: true, has_queue: true };
    assert_eq!(ready.apply_glass_effect(&data, 1, 1), Ok(data.to_vec()));
}

#[test]
fn progress_flags() {
    assert_eq!(TaskbarProgressState::NoProgress.progress_flag(), 0);
    assert_eq!(TaskbarProgressState::Indeterminate.progress_flag(), 1);
    assert_eq!(TaskbarProgressState::Normal.progress_flag(), 2);
    assert_eq!(TaskbarProgressState::Error.progress_flag(), 4);
    assert_eq!(TaskbarProgressState::Paused.progress_flag(), 8);
}

#[test]
fn taskbar_calls_need_a_window() {
    let inactive = TaskbarManager { has_taskbar_list: false, hwnd: Some(7) };
    assert!(inactive.set_progress_state(TaskbarProgressState::Normal).is_none());
    let no_window = TaskbarManager { has_taskbar_list: true, hwnd: None };
    assert!(no_window.set_progress_value(1, 2).is_none());
    let m = TaskbarManager { has_taskbar_list: true, hwnd: Some(7) };
    assert!(matches!(
        m.set_progress_state(TaskbarProgressState::Paused),
        Some(TaskbarCall::SetProgressState { hwnd: 7, flag: 8 })
    ));
    assert!(matches!(
        m.set_progress_value(30, 200),
        Some(TaskbarCall::SetProgressValue { hwnd: 7, completed: 30, total: 200 })
    ));
    match m.set_overlay_icon(Some("play.ico"), "Playing") {
        Some(TaskbarCall::SetOverlayIcon { hwnd, icon_path, description }) => {
            assert_eq!(hwnd, 7);
            assert_eq!(icon_path.as_deref(), Some("play.ico"));
            assert_eq!(description, "Playing");
        }
        _ => panic!("expected an overlay call"),
    }
    match m.set_overlay_icon(None, "Stopped") {
        Some(TaskbarCall::SetOverlayIcon { icon_path, .. }) => assert!(icon_path.is_none()),
        _ => panic!("expected an overlay call"),
    }
}

#[test]
fn jump_list_links_entries_with_files() {
    let entries = vec![
        JumpListEntry {
            title: "Song - Artist".to_string(),
            file_path: Some("/m/song.mp3".to_string()),
            icon_path: Some("/m/icon.ico".to_string()),
        },
        JumpListEntry { title: "Shuffle".to_string(), file_path: None, icon_path: None },
        JumpListEntry {
            title: "Other".to_string(),
            file_path: Some("/m/other.flac".to_string()),
            icon_path: None,
        },
    ];
    let tasks = jump_list_tasks(&entries);
    assert_eq!(tasks.len(), 2);
    assert_eq!(tasks[0].path, "/m/song.mp3");
    assert_eq!(tasks[0].description, "Song - Artist");
    assert_eq!(tasks[0].icon_path.as_deref(), Some("/m/icon.ico"));
    assert_eq!(tasks[1].path, "/m/other.flac");
    assert!(tasks[1].icon_path.is_none());
}
