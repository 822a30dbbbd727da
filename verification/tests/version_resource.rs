use modkist::version_resource::{
    first_language, fixed_version, records_exec, string_value, words_from_bytes, VALUE_LEN_ZERO,
};

fn rec(key: &str, value_len_field: u16, value: &[u16], children: &[u16]) -> Vec<u16> {
    let mut w: Vec<u16> = vec![0, value_len_field, 1];
    let k: Vec<u16> = key.encode_utf16().collect();
    w.extend(&k);
    w.push(0);
    if k.len() % 2 == 1 {
        w.push(0);
    }
    w.extend(value);
    if value.len() % 2 == 1 && !children.is_empty() {
        w.push(0);
    }
    w.extend(children);
    w[0] = (w.len() * 2) as u16;
    w
}

fn siblings(recs: &[Vec<u16>]) -> Vec<u16> {
    let mut out = Vec::new();
    for r in recs {
        out.extend(r);
        if r.len() % 2 == 1 {
            out.push(0);
        }
    }
    out
}

fn utf16(s: &str) -> Vec<u16> {
    s.encode_utf16().collect()
}

fn sample_resource() -> Vec<u16> {
    let mut version = utf16("5.4.20.0");
    version.push(0);
    let string = rec("FileVersion", version.len() as u16, &version, &[]);
    let table = rec("040904b0", 0, &[], &siblings(&[string]));
    let sfi = rec("StringFileInfo", 0, &[], &siblings(&[table]));
    let var = rec("Translation", 4, &[0x0409, 0x04b0], &[]);
    let vfi = rec("VarFileInfo", 0, &[], &siblings(&[var]));
    let mut fixed = vec![0u16; 26];
    fixed[4] = 4;
    fixed[5] = 5;
    fixed[6] = 0;
    fixed[7] = 20;
    rec("VS_VERSION_INFO", 52, &fixed, &siblings(&[sfi, vfi]))
}

#[test]
fn reads_language_strings_and_fixed_version() {
    let words = sample_resource();
    assert_eq!(first_language(&words), Some((0x0409, 0x04b0)));
    assert_eq!(string_value(&words, (0x0409, 0x04b0), &utf16("FileVersion")), Some(utf16("5.4.20.0")));
    assert_eq!(string_value(&words, (0x0409, 0x04b0), &utf16("ProductVersion")), None);
    assert_eq!(string_value(&words, (0x0407, 0x04b0), &utf16("FileVersion")), None);
    assert_eq!(fixed_version(&words), Some((5, 4, 20, 0)));
}

#[test]
fn words_are_little_endian() {
    assert_eq!(words_from_bytes(&[0x34, 0x12, 0xff, 0x00, 0x07]), vec![0x1234, 0x00ff]);
}

#[test]
fn an_odd_key_filling_its_record_is_malformed_not_a_crash() {
    assert!(records_exec(&vec![10, 0, 0, 65, 0], VALUE_LEN_ZERO).is_empty());
    assert!(records_exec(&vec![2, 0], VALUE_LEN_ZERO).is_empty());
    assert_eq!(fixed_version(&vec![10, 0, 0, 65, 0]), None);
    assert_eq!(first_language(&vec![10, 0, 0, 65, 0]), None);
}
