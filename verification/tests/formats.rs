use deadlocked::audio::{audio_display_name, audio_options, first_audio, normalize_audio_path};
use deadlocked::binary::{can_read_string, read_bytes, read_string};
use deadlocked::dlms::Cursor;
use deadlocked::gamescope::{cmdline_args, is_gamescope, parent_pid, parse_gamescope_output_size};
use deadlocked::glb::{
    component_size, glb_well_framed, is_accessor_type, is_component_type, keeps_mesh, parse_glb,
    type_component_count, write_string,
};
use deadlocked::keyboard::{device_name_field, key_events, InputEvent, Timeval, VirtualKey, EV_KEY, KEY_D};
use deadlocked::steam::{find_maps_dir, join, library_dirs, library_folder_paths, maps_dir_of};

fn strings(v: &[&str]) -> Vec<String> {
    v.iter().map(|s| s.to_string()).collect()
}

#[test]
fn parses_library_folders_vdf() {
    let text = "\"libraryfolders\"\n{\n\t\"0\"\n\t{\n\t\t\"path\"\t\t\"/mnt/games/Steam\"\n\t}\n}\n";
    let paths: Vec<String> = library_folder_paths(text)
        .into_iter()
        .map(|p| String::from_utf8(p).unwrap())
        .collect();
    assert_eq!(paths, vec!["/mnt/games/Steam".to_string()]);
}

#[test]
fn library_folders_vdf_paths() {
    let windows = "  \"path\"  \"\"C:\\\\Games\\\\Steam\"\"  \r\n\"label\" \"\"";
    assert_eq!(library_folder_paths(windows), vec![b"C:\\Games\\Steam".to_vec()]);
    assert!(library_folder_paths("\"paths\" \"x\"").is_empty());
    assert!(library_folder_paths("x \"path\" \"y\"").is_empty());
}

#[test]
fn library_dirs_take_the_last_quoted_value() {
    let text = "\t\t\"path\"\t\t\"/home/u/.steam/steam\"\n\t\t\"label\"\t\t\"\"\n\"path\" \"/mnt/b\"\r\n";
    assert_eq!(
        library_dirs(text),
        vec![b"/home/u/.steam/steam".to_vec(), b"/mnt/b".to_vec()]
    );
    assert!(library_dirs("").is_empty());
}

#[test]
fn directories_join() {
    assert_eq!(join(b"/a", "b/c"), b"/a/b/c".to_vec());
    assert_eq!(join(b"/a/", "b"), b"/a/b".to_vec());
    assert_eq!(join(b"", "b"), b"b".to_vec());
    assert_eq!(maps_dir_of(b"/g"), b"/g/game/csgo/maps".to_vec());
    assert_eq!(find_maps_dir(Ok(b"/g".to_vec()), true), Ok(b"/g/game/csgo/maps".to_vec()));
    assert_eq!(
        find_maps_dir(Ok(b"/g".to_vec()), false),
        Err("could not locate csgo directory, but not maps directory".to_string())
    );
    assert_eq!(find_maps_dir(Err("no steam".to_string()), true), Err("no steam".to_string()));
}

#[test]
fn audio_choices() {
    let options = audio_options(&strings(&["assets/audio/hit.wav", "assets/audio/kill.mp3", "/"]));
    assert_eq!(options, strings(&["hit.wav", "kill.mp3"]));
    assert_eq!(first_audio(&options), Some("hit.wav".to_string()));
    assert_eq!(first_audio(&Vec::new()), None);
    assert_eq!(normalize_audio_path(&options, "kill.mp3"), "kill.mp3");
    assert_eq!(normalize_audio_path(&options, "missing.wav"), "hit.wav");
    assert_eq!(normalize_audio_path(&Vec::new(), "missing.wav"), "");
    assert_eq!(audio_display_name("hit.wav"), "hit");
    assert_eq!(audio_display_name(""), "");
}

#[test]
fn zero_terminated_strings_and_bytes() {
    let data = b"abc\0\x01\x02xyz\0";
    let mut pos = 0;
    assert!(can_read_string(data, 0));
    assert_eq!(read_string(data, &mut pos), "abc");
    assert_eq!(pos, 4);
    assert_eq!(read_bytes(data, &mut pos, 2), vec![1, 2]);
    assert_eq!(read_string(data, &mut pos), "xyz");
    assert_eq!(pos, data.len());
    assert!(!can_read_string(b"no end", 0));
    assert!(!can_read_string(b"\xff\0", 0));
}

#[test]
fn glb_helpers() {
    assert_eq!(component_size(5121), 1);
    assert_eq!(component_size(5123), 2);
    assert_eq!(component_size(5126), 4);
    assert!(!is_component_type(5124));
    assert_eq!(type_component_count("MAT4"), 16);
    assert_eq!(type_component_count("VEC2"), 2);
    assert!(!is_accessor_type("MAT3"));
    assert!(keeps_mesh("agents/x.vmdl_c.thirdperson_body_test"));
    assert!(keeps_mesh("thirdperson_default_gloves"));
    assert!(!keeps_mesh("firstperson_arms"));
}

#[test]
fn written_strings_read_back() {
    let mut out = vec![9u8];
    write_string(&mut out, "root");
    assert_eq!(out, vec![9, 4, 0, 0, 0, b'r', b'o', b'o', b't']);
    let mut cursor = Cursor::new(&out);
    cursor.pos = 1;
    assert_eq!(cursor.string(), Ok("root".to_string()));
}

fn glb(chunks: &[(&[u8; 4], &[u8])]) -> Vec<u8> {
    let mut body = Vec::new();
    for (kind, data) in chunks {
        body.extend_from_slice(&(data.len() as u32).to_le_bytes());
        body.extend_from_slice(*kind);
        body.extend_from_slice(data);
    }
    let mut out = Vec::new();
    out.extend_from_slice(b"glTF");
    out.extend_from_slice(&2u32.to_le_bytes());
    out.extend_from_slice(&((12 + body.len()) as u32).to_le_bytes());
    out.extend_from_slice(&body);
    out
}

#[test]
fn glb_containers() {
    let data = glb(&[(b"JSON", &b"{\"a\":1}"[..]), (b"BIN\0", &[1u8, 2, 3][..])]);
    assert!(glb_well_framed(&data));
    let parsed = parse_glb(&data).expect("valid container");
    assert_eq!(parsed.json["a"], 1);
    assert_eq!(parsed.bin, vec![1, 2, 3]);

    let no_bin = parse_glb(&glb(&[(b"JSON", &b"[]"[..])])).expect("valid container");
    assert!(no_bin.bin.is_empty());
    assert_eq!(parse_glb(&glb(&[(b"BIN\0", &[1u8][..])])).err(), Some("glb missing JSON chunk".to_string()));
    assert_eq!(parse_glb(b"GLTF00000000").err(), Some("not a glb file".to_string()));
    assert!(parse_glb(&glb(&[(b"JSON", &b"{"[..])])).is_err());

    let mut truncated = glb(&[(b"JSON", &b"{}"[..])]);
    truncated.truncate(truncated.len() - 1);
    assert!(!glb_well_framed(&truncated));
    assert!(glb_well_framed(b"short"));
}

#[test]
fn gamescope_command_lines() {
    let args = cmdline_args(b"/usr/bin/gamescope\x00-W\x001920\x00\x00-H\x001080\x00--\x00game\x00");
    assert_eq!(args, strings(&["/usr/bin/gamescope", "-W", "1920", "-H", "1080", "--", "game"]));
    assert!(is_gamescope(&args));
    assert!(!is_gamescope(&strings(&["/usr/bin/bash"])));
    assert!(!is_gamescope(&Vec::new()));
    assert_eq!(parse_gamescope_output_size(&args), (1920, 1080));
    assert_eq!(parse_gamescope_output_size(&strings(&["gamescope"])), (1280, 720));
    assert_eq!(
        parse_gamescope_output_size(&strings(&["gamescope", "--output-height=900"])),
        (1600, 900)
    );
    assert_eq!(
        parse_gamescope_output_size(&strings(&["gamescope", "-H", "0", "-H", "1440", "--", "-W", "5"])),
        (2560, 1440)
    );
    assert_eq!(
        parse_gamescope_output_size(&strings(&["gamescope", "--output-width", "800", "-H"])),
        (800, 720)
    );
    assert_eq!(
        parse_gamescope_output_size(&strings(&["gamescope", "-H", "4294967295"])),
        (477218588, 4294967295)
    );
}

#[test]
fn parent_process_ids() {
    assert_eq!(parent_pid("Name:\tcs2\nPid:\t50\nPPid:\t42\n"), Some(42));
    assert_eq!(parent_pid("PPid:  -3 \r\n"), Some(-3));
    assert_eq!(parent_pid("PPid:\tx\nPPid:\t5\n"), None);
    assert_eq!(parent_pid("Pid: 5"), None);
}

#[test]
fn key_event_bytes() {
    let time = Timeval { seconds: 1, microseconds: 2 };
    let (key, syn) = key_events(VirtualKey::D, true, time);
    assert_eq!(key, InputEvent { time, event_type: EV_KEY, code: KEY_D, value: 1 });
    assert_eq!(syn.event_type, 0);
    assert_eq!(syn.code, 0);
    let bytes = key.bytes();
    assert_eq!(bytes.len(), 24);
    assert_eq!(&bytes[0..8], &1u64.to_le_bytes());
    assert_eq!(&bytes[8..16], &2u64.to_le_bytes());
    assert_eq!(&bytes[16..18], &1u16.to_le_bytes());
    assert_eq!(&bytes[18..20], &32u16.to_le_bytes());
    assert_eq!(&bytes[20..24], &1i32.to_le_bytes());
    let release = key_events(VirtualKey::A, false, time).0;
    assert_eq!(release.code, 30);
    assert_eq!(release.value, 0);
    let negative = InputEvent { time, event_type: 0, code: 0, value: -1 };
    assert_eq!(&negative.bytes()[20..24], &[0xFF, 0xFF, 0xFF, 0xFF]);
    let name = device_name_field(b"deadlocked-virtual-kbd");
    assert_eq!(&name[..22], b"deadlocked-virtual-kbd");
    assert!(name[22..].iter().all(|&b| b == 0));
    let long = device_name_field(&[b'x'; 100]);
    assert!(long[..79].iter().all(|&b| b == b'x'));
    assert_eq!(long[79], 0);
}

fn kwin(text: &str) -> Option<String> {
    deadlocked::kwin::patch_kwinrc(text.as_bytes()).map(|b| String::from_utf8(b).unwrap())
}

#[test]
fn kwinrc_without_section_gets_one() {
    assert_eq!(kwin("").as_deref(), Some("\n[Compositing]\nWindowsBlockCompositing=false\n"));
    assert_eq!(
        kwin("[General]\nfoo=1\n").as_deref(),
        Some("[General]\nfoo=1\n\n[Compositing]\nWindowsBlockCompositing=false\n")
    );
    assert_eq!(
        kwin("[General]\n\n").as_deref(),
        Some("[General]\n\n[Compositing]\nWindowsBlockCompositing=false\n")
    );
}

#[test]
fn kwinrc_key_is_set_or_added() {
    assert_eq!(kwin("[Compositing]\nWindowsBlockCompositing=false\n"), None);
    assert_eq!(kwin("[Compositing]\r\n  WindowsBlockCompositing=false  \r\n"), None);
    assert_eq!(
        kwin("[Compositing]\nWindowsBlockCompositing=true\n[Other]\nx=1\n").as_deref(),
        Some("[Compositing]\nWindowsBlockCompositing=false\n[Other]\nx=1\n")
    );
    assert_eq!(
        kwin("[Compositing]\nBackend=OpenGL\n[Other]\nx=1").as_deref(),
        Some("[Compositing]\nBackend=OpenGL\nWindowsBlockCompositing=false\n[Other]\nx=1\n")
    );
    assert_eq!(
        kwin("[Compositing]\nBackend=OpenGL").as_deref(),
        Some("[Compositing]\nBackend=OpenGL\nWindowsBlockCompositing=false\n")
    );
}

#[test]
fn kwinrc_patch_is_stable() {
    let once = kwin("[A]\nk=v\n[Compositing]\nWindowsBlockCompositing=true\n").unwrap();
    assert_eq!(kwin(&once), None);
    let added = kwin("[A]\nk=v").unwrap();
    assert_eq!(kwin(&added), None);
}

#[test]
fn text_lines_follow_str_lines() {
    for text in ["", "a", "a\n", "a\r\nb", "a\r", "\n\n", "x\r\r\ny"] {
        let lines: Vec<Vec<u8>> = text.lines().map(|l| l.as_bytes().to_vec()).collect();
        assert_eq!(deadlocked::kwin::text_lines(text.as_bytes()), lines, "{:?}", text);
    }
}

#[test]
fn kde_session_is_recognized() {
    assert!(deadlocked::kwin::is_kde_session(b"KDE", false, false));
    assert!(deadlocked::kwin::is_kde_session(b"ubuntu:Plasma", false, false));
    assert!(!deadlocked::kwin::is_kde_session(b"GNOME", false, false));
    assert!(deadlocked::kwin::is_kde_session(b"", true, false));
    assert!(deadlocked::kwin::is_kde_session(b"", false, true));
    assert!(!deadlocked::kwin::is_kde_session(b"", false, false));
}

#[test]
fn kwin_compositing_reply_is_read() {
    use_reply(b"method return time=1\n   variant       boolean true\n", Some(true));
    use_reply(b"variant boolean false", Some(false));
    use_reply(b"Error org.freedesktop.DBus", None);
}

fn use_reply(out: &[u8], expected: Option<bool>) {
    assert_eq!(deadlocked::kwin::compositing_reply(out), expected);
}

#[test]
fn overlay_follows_kwin_compositing() {
    let mut state = deadlocked::kwin::OverlayState::new(1000);
    assert!(state.overlay_allowed(true));
    assert!(state.set_overlay_visible(true));
    assert!(!state.set_overlay_visible(true));
    assert!(state.set_overlay_visible(false));
    assert!(!state.check_due(true, 999));
    assert!(state.check_due(true, 1000));
    assert!(!state.check_due(true, 5999));
    assert!(state.record_answer(Some(false)));
    assert!(!state.overlay_allowed(true));
    assert!(state.overlay_allowed(false));
    assert!(!state.record_answer(None));
    assert!(!state.overlay_allowed(true));
    assert!(state.check_due(true, 6000));
    assert!(!state.record_answer(Some(true)));
    assert!(state.overlay_allowed(true));
    state.record_answer(Some(false));
    assert!(!state.check_due(false, 7000));
    assert!(state.overlay_allowed(true));
}

#[test]
fn sound_choice_reloads_only_on_change() {
    let options = vec!["hit.wav".to_string(), "kill.wav".to_string()];
    let mut choice = deadlocked::audio::SoundChoice::new(&options, "missing.wav");
    assert_eq!(choice.path_text(), "hit.wav");
    assert!(!choice.set(&options, "hit.wav"));
    assert!(choice.set(&options, "kill.wav"));
    assert_eq!(choice.path_text(), "kill.wav");
    assert!(choice.set(&options, "gone.wav"));
    assert_eq!(choice.path_text(), "hit.wav");
    let none: Vec<String> = Vec::new();
    let empty = deadlocked::audio::SoundChoice::new(&none, "x.wav");
    assert_eq!(empty.path_text(), "");
}

#[test]
fn gamescope_size_ignores_the_game_arguments() {
    let with_game = strings(&["gamescope", "-H", "1080", "--", "game", "-W", "800"]);
    assert_eq!(parse_gamescope_output_size(&with_game), (1920, 1080));
    assert_eq!(parse_gamescope_output_size(&with_game[..3].to_vec()), (1920, 1080));
}

#[test]
fn audio_options_are_bare_file_names() {
    let options = audio_options(&strings(&["assets/audio/hit.wav", "a/b/kill.mp3/", "/"]));
    assert_eq!(options, strings(&["hit.wav", "kill.mp3"]));
    assert!(options.iter().all(|o| !o.contains('/')));
}
