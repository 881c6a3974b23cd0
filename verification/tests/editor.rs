use std::collections::HashMap;

use rbx_dom_weak::types::Ref;
use rbxl_editor::editor::{
    external_edit_returned, log_error, log_info, ActiveTab, ExternalEditAction, OpenScriptTab,
    OutputLog,
};
use rbxl_editor::events::{
    channel, next_is_plugin_flag, plugin_channel, queue_browse_error, queue_group_universes,
    queue_open_place_bytes, queue_open_place_error, queue_plugin_bytes, queue_plugin_error,
    queue_publish_result, queue_universe_places, take_next_is_plugin,
    trigger_open_model_for_plugin, try_recv_all, try_recv_plugins, FileEvent, GroupUniverse,
};
use rbxl_editor::gui::{
    class_icon, decode_rich_entities, is_gui_object, parse_rich_color, rich_attribute,
    roblox_font_family, GuiRuntimeEventKind,
};
use rbxl_editor::ime::{
    begin_frame, diff, end_frame, ime_state, ime_visibility, normalize_line_breaks, ImeKey,
    ImeOutput,
};

#[test]
fn file_events_come_out_in_order() {
    let mut q = channel();
    queue_open_place_bytes(&mut q, "a.rbxl".to_string(), vec![1, 2]);
    queue_open_place_error(&mut q, "b.rbxl".to_string(), "404".to_string());
    queue_publish_result(&mut q, "c".to_string(), Ok(()));
    queue_browse_error(&mut q, "offline".to_string());
    queue_universe_places(&mut q, 7, vec![(1, "Main".to_string())]);
    let mut thumbs = HashMap::new();
    thumbs.insert(5u64, "https://t/5".to_string());
    queue_group_universes(
        &mut q,
        9,
        vec![GroupUniverse {
            id: 5,
            name: "Game".to_string(),
            description: String::new(),
            player_count: Some(3),
            root_place_id: None,
        }],
        thumbs,
    );
    assert_eq!(q.len(), 6);
    let events = try_recv_all(&mut q);
    assert_eq!(events.len(), 6);
    assert!(matches!(&events[0], FileEvent::PlaceBytes { uri, data } if uri == "a.rbxl" && data == &vec![1, 2]));
    assert!(matches!(&events[1], FileEvent::PlaceError { uri, error } if uri == "b.rbxl" && error == "404"));
    assert!(matches!(&events[2], FileEvent::PublishResult { result: Ok(()), .. }));
    assert!(matches!(&events[3], FileEvent::BrowseError { message } if message == "offline"));
    assert!(matches!(&events[4], FileEvent::UniversePlaces { universe_id: 7, places } if places.len() == 1));
    assert!(matches!(&events[5], FileEvent::GroupUniverses { group_id: 9, universes, thumbs } if universes[0].id == 5 && thumbs.len() == 1));
    assert_eq!(q.len(), 0);
    assert!(try_recv_all(&mut q).is_empty());
}

#[test]
fn plugin_downloads_come_out_in_order() {
    let mut q = plugin_channel();
    queue_plugin_bytes(&mut q, "p1".to_string(), vec![7]);
    queue_plugin_error(&mut q, "p2".to_string(), "nope".to_string());
    let got = try_recv_plugins(&mut q);
    assert_eq!(got.len(), 2);
    assert_eq!(got[0].name_hint, "p1");
    assert_eq!(got[0].result, Ok(vec![7]));
    assert_eq!(got[1].result, Err("nope".to_string()));
    assert!(try_recv_plugins(&mut q).is_empty());
}

#[test]
fn plugin_picker_flag_is_taken_once() {
    let mut f = next_is_plugin_flag();
    assert!(!take_next_is_plugin(&mut f));
    trigger_open_model_for_plugin(&mut f);
    assert!(take_next_is_plugin(&mut f));
    assert!(!take_next_is_plugin(&mut f));
}

#[test]
fn diff_finds_the_changed_run() {
    assert_eq!(diff("abc", "abXc"), (0, "X".to_string()));
    assert_eq!(diff("hello", "help"), (2, "p".to_string()));
    assert_eq!(diff("", "hi"), (0, "hi".to_string()));
    assert_eq!(diff("hi", ""), (2, String::new()));
    assert_eq!(diff("same", "same"), (0, String::new()));
    assert_eq!(diff("aaa", "aa"), (1, String::new()));
    assert_eq!(diff("\u{e9}t\u{e9}", "\u{e9}\u{e9}"), (1, String::new()));
}

#[test]
fn diff_replays_to_the_new_text() {
    let cases = [("kitten", "sitting"), ("", ""), ("abc", "xyz"), ("abba", "aba"), ("  x", "  xy\n")];
    for (old, new) in cases {
        let (deleted, inserted) = diff(old, new);
        let o: Vec<char> = old.chars().collect();
        let prefix = o.iter().zip(new.chars()).take_while(|(a, b)| **a == *b).count();
        let mut rebuilt: String = o[..prefix].iter().collect();
        rebuilt.push_str(&inserted);
        rebuilt.extend(o[prefix + deleted..].iter());
        assert_eq!(rebuilt, new, "{:?} -> {:?}", old, new);
    }
}

#[test]
fn line_breaks_are_normalised() {
    assert_eq!(normalize_line_breaks("a\r\nb\rc\n"), "a\nb\nc\n");
    assert_eq!(normalize_line_breaks("\r\r\n"), "\n\n");
    assert_eq!(normalize_line_breaks("plain"), "plain");
}

fn describe(events: &[ImeOutput]) -> Vec<String> {
    events
        .iter()
        .map(|e| match e {
            ImeOutput::Key { key: ImeKey::Backspace, pressed } => format!("bs{}", if *pressed { "+" } else { "-" }),
            ImeOutput::Key { key: ImeKey::Enter, pressed } => format!("enter{}", if *pressed { "+" } else { "-" }),
            ImeOutput::Text(t) => format!("text:{}", t),
            ImeOutput::Preedit(t) => format!("preedit:{}", t),
            ImeOutput::Commit(t) => format!("commit:{}", t),
            ImeOutput::Enabled => "enabled".to_string(),
            ImeOutput::Disabled => "disabled".to_string(),
        })
        .collect()
}

const PAD: &str = "        ";

#[test]
fn keyboard_opens_and_closes_with_focus() {
    let mut s = ime_state();
    let r = end_frame(&mut s, true);
    assert_eq!(describe(&r.events), vec!["enabled"]);
    assert_eq!(r.show_keyboard, Some(true));
    assert!(s.active);
    assert_eq!(s.mirror, PAD);
    let r = end_frame(&mut s, true);
    assert!(r.events.is_empty());
    assert_eq!(r.show_keyboard, None);
    s.composing = true;
    let r = end_frame(&mut s, false);
    assert_eq!(describe(&r.events), vec!["preedit:", "disabled"]);
    assert_eq!(r.show_keyboard, Some(false));
    assert!(!s.active && !s.composing);
}

#[test]
fn dismissed_keyboard_surrenders_focus() {
    let mut s = ime_state();
    assert!(!ime_visibility(&mut s, false));
    end_frame(&mut s, true);
    assert!(!ime_visibility(&mut s, false));
    assert!(!ime_visibility(&mut s, true));
    assert!(s.seen_visible);
    assert!(ime_visibility(&mut s, false));
}

#[test]
fn typing_becomes_text_and_enter() {
    let mut s = ime_state();
    let idle = begin_frame(&mut s, "ignored".to_string(), None);
    assert!(idle.events.is_empty());
    end_frame(&mut s, true);
    let r = begin_frame(&mut s, format!("{}ab\r\ncd\n", PAD), None);
    assert_eq!(
        describe(&r.events),
        vec!["text:ab", "enter+", "enter-", "text:cd", "enter+", "enter-"]
    );
    assert!(!r.reseed);
    assert_eq!(s.mirror, format!("{}ab\r\ncd\n", PAD));
    let r = begin_frame(&mut s, format!("{}ab\r\ncd\n", PAD), None);
    assert!(r.events.is_empty());
}

#[test]
fn backspace_into_the_padding_reseeds() {
    let mut s = ime_state();
    end_frame(&mut s, true);
    let r = begin_frame(&mut s, "       ".to_string(), None);
    assert_eq!(describe(&r.events), vec!["bs+", "bs-"]);
    assert!(r.reseed);
    assert_eq!(s.mirror, PAD);
}

#[test]
fn long_buffer_reseeds() {
    let mut s = ime_state();
    end_frame(&mut s, true);
    let long = format!("{}{}", PAD, "x".repeat(2100));
    let r = begin_frame(&mut s, long, None);
    assert!(r.reseed);
    assert_eq!(r.events.len(), 1);
    assert_eq!(s.mirror, PAD);
}

#[test]
fn composition_is_forwarded_as_preedit_then_committed() {
    let mut s = ime_state();
    end_frame(&mut s, true);
    let text = format!("{}h\u{e9}", PAD);
    // A region that splits a character falls back to the diff.
    let split = begin_frame(&mut s, text.clone(), Some((8, 10)));
    assert_eq!(describe(&split.events), vec!["preedit:h\u{e9}"]);
    assert!(s.composing);
    let again = begin_frame(&mut s, text.clone(), Some((8, 11)));
    assert!(again.events.is_empty());
    let shorter = begin_frame(&mut s, text.clone(), Some((8, 9)));
    assert_eq!(describe(&shorter.events), vec!["preedit:h"]);
    assert_eq!(s.last_preedit, "h");
    let r = begin_frame(&mut s, format!("{}h\u{e9}llo", PAD), None);
    assert_eq!(describe(&r.events), vec!["preedit:", "commit:h\u{e9}llo"]);
    assert!(!s.composing);
    assert_eq!(s.last_preedit, "");
}

#[test]
fn gui_object_classes() {
    for c in ["Frame", "CanvasGroup", "TextLabel", "TextButton", "TextBox", "ImageLabel",
        "ImageButton", "ScrollingFrame", "ViewportFrame", "VideoFrame"]
    {
        assert!(is_gui_object(c), "{}", c);
    }
    assert!(!is_gui_object("ScreenGui"));
    assert!(!is_gui_object("frame"));
    assert!(!is_gui_object(""));
}

#[test]
fn explorer_icons() {
    assert_eq!(class_icon("Script"), "\u{1F4DC}");
    assert_eq!(class_icon("LocalScript"), "\u{1F4C4}");
    assert_eq!(class_icon("ModuleScript"), "\u{1F4E6}");
    assert_eq!(class_icon("Folder"), "\u{1F4C1}");
    assert_eq!(class_icon("Workspace"), "\u{1F310}");
    assert_eq!(class_icon("Players"), "\u{1F464}");
    assert_eq!(class_icon("Part"), "\u{25FE}");
}

#[test]
fn font_families() {
    assert_eq!(roblox_font_family(false, false, true, false, false, true, 700), "SourceSansItalic");
    assert_eq!(roblox_font_family(false, false, true, false, false, false, 650), "SourceSansSemiBold");
    assert_eq!(roblox_font_family(false, false, false, true, false, false, 800), "MontserratBlack");
    assert_eq!(roblox_font_family(false, false, false, false, true, false, 400), "ArimoRegular");
    assert_eq!(roblox_font_family(true, true, false, false, false, false, 300), "BuilderMonoLight");
    assert_eq!(roblox_font_family(false, true, false, false, false, false, 600), "BuilderExtendedSemiBold");
    assert_eq!(roblox_font_family(false, false, false, false, false, false, 100), "BuilderSansThin");
    assert_eq!(roblox_font_family(false, false, false, false, false, false, 200), "BuilderSansLight");
    assert_eq!(roblox_font_family(false, false, false, false, false, false, 400), "BuilderSansRegular");
    assert_eq!(roblox_font_family(false, false, false, false, false, false, 500), "BuilderSansMedium");
    assert_eq!(roblox_font_family(false, false, false, false, false, false, 700), "BuilderSansBold");
}

#[test]
fn rich_text_entities() {
    assert_eq!(decode_rich_entities("&lt;b&gt;hi&lt;/b&gt;"), "<b>hi</b>");
    assert_eq!(decode_rich_entities("&quot;a&apos;"), "\"a'");
    assert_eq!(decode_rich_entities("&amp;lt;"), "&lt;");
    assert_eq!(decode_rich_entities("a & b"), "a & b");
}

#[test]
fn rich_text_attributes() {
    assert_eq!(rich_attribute("font color=\"#FF0000\"", "color"), Some("#FF0000".to_string()));
    assert_eq!(rich_attribute("FONT COLOR='rgb(1,2,3)' size=4", "color"), Some("rgb(1,2,3)".to_string()));
    assert_eq!(rich_attribute("font size=14/", "size"), Some("14".to_string()));
    assert_eq!(rich_attribute("font size=  14 face=x", "size"), Some("14".to_string()));
    assert_eq!(rich_attribute("font size=\"unterminated", "size"), Some("unterminated".to_string()));
    assert_eq!(rich_attribute("font size=", "size"), Some(String::new()));
    assert_eq!(rich_attribute("font face=Arial", "size"), None);
}

#[test]
fn output_log_lines() {
    let mut logs: Vec<OutputLog> = Vec::new();
    log_info(&mut logs, "opened".to_string());
    log_error(&mut logs, "failed".to_string());
    assert_eq!(logs.len(), 2);
    assert_eq!((logs[0].level, logs[0].message.as_str(), logs[0].time.as_str()), ("INFO", "opened", "now"));
    assert_eq!((logs[1].level, logs[1].message.as_str()), ("ERROR", "failed"));
}

#[test]
fn editor_enums() {
    assert_ne!(ActiveTab::Explorer, ActiveTab::Output);
    assert_eq!(GuiRuntimeEventKind::TextChanged, GuiRuntimeEventKind::TextChanged);
}

#[test]
fn rich_text_colours() {
    assert_eq!(parse_rich_color("#FF8000", 200), Some((255, 128, 0, 200)));
    assert_eq!(parse_rich_color("  ##00ff7f ", 255), Some((0, 255, 127, 255)));
    assert_eq!(parse_rich_color("+fffff", 1), Some((15, 255, 255, 1)));
    assert_eq!(parse_rich_color("#GGGGGG", 255), None);
    assert_eq!(parse_rich_color("#fff", 255), None);
    assert_eq!(parse_rich_color("rgb(1, 2,3)", 9), Some((1, 2, 3, 9)));
    assert_eq!(parse_rich_color("rgb( +7 ,8,9)", 9), Some((7, 8, 9, 9)));
    assert_eq!(parse_rich_color("rgb(1,x,2,3)", 9), Some((1, 2, 3, 9)));
    assert_eq!(parse_rich_color("rgb(1,2,300)", 9), None);
    assert_eq!(parse_rich_color("rgb(1,2,3", 9), None);
    assert_eq!(parse_rich_color("RGB(1,2,3)", 9), None);
    assert_eq!(parse_rich_color("", 9), None);
}

fn script_tab(id: u128, name: &str, text: &str) -> OpenScriptTab {
    OpenScriptTab {
        referent: Ref::some(id),
        name: name.to_string(),
        class: "Script".to_string(),
        buffer: format!("{text} -- edited"),
        original: text.to_string(),
    }
}

#[test]
fn external_edit_syncs_the_first_matching_tab() {
    let mut pending = HashMap::new();
    pending.insert(7u64, Ref::some(2));
    let mut tabs = vec![script_tab(1, "A", "a"), script_tab(2, "B", "b"), script_tab(2, "B2", "c")];
    let mut status = String::from("Ready");
    let mut logs = Vec::new();
    let action = external_edit_returned(
        &pending,
        true,
        &mut tabs,
        &mut status,
        &mut logs,
        7,
        "print(1)".to_string(),
    );
    match action {
        ExternalEditAction::SetSource { referent, text } => {
            assert_eq!(referent, Ref::some(2));
            assert_eq!(text, "print(1)");
        }
        ExternalEditAction::Ignore => panic!("a pending edit is synced"),
    }
    assert_eq!(tabs[0].buffer, "a -- edited");
    assert_eq!(tabs[1].buffer, "print(1)");
    assert_eq!(tabs[1].original, "print(1)");
    assert_eq!(tabs[2].buffer, "c -- edited");
    assert_eq!(tabs[2].original, "c");
    assert_eq!(status, "\u{26a1} Synced edits from external app");
    assert_eq!(logs.len(), 1);
    assert_eq!(logs[0].level, "INFO");
    assert_eq!(logs[0].message, "Synced script from external editor");
}

#[test]
fn external_edit_ignored_without_pending_script_or_place() {
    let mut pending = HashMap::new();
    pending.insert(7u64, Ref::some(2));
    let mut tabs = vec![script_tab(2, "B", "b")];
    let mut status = String::from("Ready");
    let mut logs = Vec::new();
    let a = external_edit_returned(&pending, true, &mut tabs, &mut status, &mut logs, 8, "x".to_string());
    assert!(matches!(a, ExternalEditAction::Ignore));
    let b = external_edit_returned(&pending, false, &mut tabs, &mut status, &mut logs, 7, "x".to_string());
    assert!(matches!(b, ExternalEditAction::Ignore));
    assert_eq!(tabs[0].buffer, "b -- edited");
    assert_eq!(status, "Ready");
    assert!(logs.is_empty());
}
