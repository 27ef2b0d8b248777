use steam_downloader::manifest::{
    guess_os, parse_manifest, read_string, read_tag, read_varint, skip_field,
};

fn varint(mut v: u64) -> Vec<u8> {
    let mut out = Vec::new();
    loop {
        let b = (v & 0x7f) as u8;
        v >>= 7;
        if v == 0 {
            out.push(b);
            return out;
        }
        out.push(b | 0x80);
    }
}

fn key(field: u64, wire: u64) -> Vec<u8> {
    varint((field << 3) | wire)
}

fn file_mapping(name: &str, size: u64) -> Vec<u8> {
    let mut inner = Vec::new();
    inner.extend(key(1, 2));
    inner.extend(varint(name.len() as u64));
    inner.extend(name.as_bytes());
    inner.extend(key(2, 0));
    inner.extend(varint(size));
    let mut out = key(1, 2);
    out.extend(varint(inner.len() as u64));
    out.extend(inner);
    out
}

#[test]
fn varint_single_byte() {
    let data = [0x2a, 0xff];
    let mut cursor = 0usize;
    assert_eq!(read_varint(&data, &mut cursor), Ok(42));
    assert_eq!(cursor, 1);
}

#[test]
fn varint_multi_byte() {
    let data = [0xac, 0x02];
    let mut cursor = 0usize;
    assert_eq!(read_varint(&data, &mut cursor), Ok(300));
    assert_eq!(cursor, 2);
}

#[test]
fn varint_max_value_round_trips() {
    for v in [0u64, 1, 127, 128, 16383, 16384, u32::MAX as u64, u64::MAX - 1, u64::MAX] {
        let data = varint(v);
        let mut cursor = 0usize;
        assert_eq!(read_varint(&data, &mut cursor), Ok(v));
        assert_eq!(cursor, data.len());
    }
}

#[test]
fn varint_truncated_input_fails_at_end() {
    let data = [0x80, 0x80];
    let mut cursor = 0usize;
    assert_eq!(read_varint(&data, &mut cursor), Err(()));
    assert_eq!(cursor, 2);
}

#[test]
fn varint_too_long_fails_after_ten_bytes() {
    let data = [0xffu8; 12];
    let mut cursor = 0usize;
    assert_eq!(read_varint(&data, &mut cursor), Err(()));
    assert_eq!(cursor, 10);
}

#[test]
fn varint_tenth_byte_keeps_lowest_bit() {
    let mut data = vec![0x80u8; 9];
    data.push(0x03);
    let mut cursor = 0usize;
    assert_eq!(read_varint(&data, &mut cursor), Ok(1u64 << 63));
}

#[test]
fn varint_at_end_fails_without_moving() {
    let data = [0x01];
    let mut cursor = 1usize;
    assert_eq!(read_varint(&data, &mut cursor), Err(()));
    assert_eq!(cursor, 1);
}

#[test]
fn tag_splits_field_and_wire() {
    let data = key(2, 0);
    let mut cursor = 0usize;
    assert_eq!(read_tag(&data, &mut cursor), Ok((2, 0)));
    let data = key(17, 5);
    let mut cursor = 0usize;
    assert_eq!(read_tag(&data, &mut cursor), Ok((17, 5)));
}

#[test]
fn string_reads_utf8() {
    let mut data = varint(5);
    data.extend("héll".as_bytes());
    let mut cursor = 0usize;
    assert_eq!(read_string(&data, &mut cursor), Ok("héll".to_string()));
    assert_eq!(cursor, 6);
}

#[test]
fn string_past_end_fails_after_length() {
    let data = [0x05, b'a', b'b'];
    let mut cursor = 0usize;
    assert_eq!(read_string(&data, &mut cursor), Err(()));
    assert_eq!(cursor, 1);
}

#[test]
fn string_invalid_utf8_fails_after_bytes() {
    let data = [0x02, 0xff, 0xfe, 0x00];
    let mut cursor = 0usize;
    assert_eq!(read_string(&data, &mut cursor), Err(()));
    assert_eq!(cursor, 3);
}

#[test]
fn skip_each_wire_type() {
    let data = [0x96, 0x01, 0, 0, 0, 0, 0, 0, 0, 0];
    let mut c = 0usize;
    assert_eq!(skip_field(&data, &mut c, 0), Ok(()));
    assert_eq!(c, 2);
    let mut c = 0usize;
    assert_eq!(skip_field(&data, &mut c, 1), Ok(()));
    assert_eq!(c, 8);
    let mut c = 0usize;
    assert_eq!(skip_field(&[0x03, 1, 2, 3], &mut c, 2), Ok(()));
    assert_eq!(c, 4);
    let mut c = 0usize;
    assert_eq!(skip_field(&data, &mut c, 5), Ok(()));
    assert_eq!(c, 4);
    let mut c = 0usize;
    assert_eq!(skip_field(&data, &mut c, 3), Err(()));
    assert_eq!(c, 0);
}

#[test]
fn skip_saturates_huge_length() {
    let mut data = varint(u64::MAX);
    data.push(0);
    let mut c = 0usize;
    assert_eq!(skip_field(&data, &mut c, 2), Ok(()));
    assert_eq!(c, usize::MAX);
}

#[test]
fn manifest_windows_depot() {
    let mut data = Vec::new();
    data.extend(file_mapping("game/Game.exe", 1000));
    data.extend(file_mapping("game/data.pak", 5000));
    data.extend(file_mapping("game/steam_api64.dll", 200));
    let s = parse_manifest(&data);
    assert_eq!(s.file_count, 3);
    assert_eq!(s.total_size, 6200);
    assert_eq!(s.os, "Windows");
    assert_eq!(
        s.top_files,
        vec!["game/Game.exe", "game/Game.exe", "game/data.pak", "game/steam_api64.dll", "game/steam_api64.dll"]
    );
}

#[test]
fn manifest_linux_depot() {
    let mut data = Vec::new();
    data.extend(file_mapping("bin/libgame.so", 10));
    data.extend(file_mapping("bin/game.x86_64", 20));
    let s = parse_manifest(&data);
    assert_eq!(s.file_count, 2);
    assert_eq!(s.total_size, 30);
    assert_eq!(s.os, "Linux");
}

#[test]
fn manifest_skips_other_fields() {
    let mut data = Vec::new();
    data.extend(key(4, 0));
    data.extend(varint(99));
    data.extend(key(5, 5));
    data.extend([1, 2, 3, 4]);
    data.extend(file_mapping("Mac/Game.app/Contents/MacOS/Game", 7));
    data.extend(key(6, 1));
    data.extend([0; 8]);
    let s = parse_manifest(&data);
    assert_eq!(s.file_count, 1);
    assert_eq!(s.total_size, 7);
    assert_eq!(s.os, "MacOS");
}

#[test]
fn manifest_empty_and_garbage() {
    let s = parse_manifest(&[]);
    assert_eq!(s.file_count, 0);
    assert_eq!(s.total_size, 0);
    assert!(s.top_files.is_empty());
    assert_eq!(s.os, "Unknown");
    let s = parse_manifest(&[0x80]);
    assert_eq!(s.file_count, 0);
}

#[test]
fn manifest_entry_running_past_end_stops() {
    let mut data = file_mapping("a.exe", 1);
    data.extend(key(1, 2));
    data.extend(varint(50));
    data.extend([0, 0]);
    let s = parse_manifest(&data);
    assert_eq!(s.file_count, 1);
}

#[test]
fn manifest_sizes_wrap() {
    let mut data = Vec::new();
    data.extend(file_mapping("a", u64::MAX));
    data.extend(file_mapping("b", 2));
    let s = parse_manifest(&data);
    assert_eq!(s.total_size, 1);
    assert_eq!(s.file_count, 2);
}

#[test]
fn guess_os_tie_is_unknown() {
    let names = vec!["a.exe".to_string(), "b.so".to_string()];
    assert_eq!(guess_os(&names), "Unknown");
    let names = vec!["WINDOWS/readme.txt".to_string()];
    assert_eq!(guess_os(&names), "Windows");
    let names = vec!["OSX/Info.plist".to_string(), "x.deb".to_string(), "y.dmg".to_string()];
    assert_eq!(guess_os(&names), "MacOS");
}

#[test]
fn guess_os_ignores_name_order() {
    let names: Vec<String> = ["game.exe", "lib.so", "engine.dll", "readme.txt"]
        .iter()
        .map(|s| s.to_string())
        .collect();
    let mut reversed = names.clone();
    reversed.reverse();
    assert_eq!(guess_os(&names), "Windows");
    assert_eq!(guess_os(&reversed), "Windows");
}
