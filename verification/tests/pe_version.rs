use modkist::bepinex::{read_pe_version_bytes, version_matches_required, REQUIRED_VERSION};

fn rec(key: &str, value_len_field: u16, value: &[u16], children: &[u16]) -> Vec<u16> {
    let mut w: Vec<u16> = vec![0, value_len_field, 1];
    let k: Vec<u16> = key.encode_utf16().collect();
    w.extend(&k);
    w.push(0);
    if k.len() % 2 == 1 {
        w.push(0);
    }
    w.extend(value);
    if value.len() % 2 == 1 && !children.is_empty() {
        w.push(0);
    }
    w.extend(children);
    w[0] = (w.len() * 2) as u16;
    w
}

fn siblings(recs: &[Vec<u16>]) -> Vec<u16> {
    let mut out = Vec::new();
    for r in recs {
        out.extend(r);
        if r.len() % 2 == 1 {
            out.push(0);
        }
    }
    out
}

fn utf16z(s: &str) -> Vec<u16> {
    let mut v: Vec<u16> = s.encode_utf16().collect();
    v.push(0);
    v
}

/// A VS_VERSIONINFO with FileVersion and ProductVersion strings and a fixed
/// file version of 4.3.2.1.
fn version_info(file_version: Option<&str>, product_version: &str) -> Vec<u8> {
    let mut strings = Vec::new();
    if let Some(fv) = file_version {
        let v = utf16z(fv);
        strings.push(rec("FileVersion", v.len() as u16, &v, &[]));
    }
    let pv = utf16z(product_version);
    strings.push(rec("ProductVersion", pv.len() as u16, &pv, &[]));
    let table = rec("040904b0", 0, &[], &siblings(&strings));
    let sfi = rec("StringFileInfo", 0, &[], &siblings(&[table]));
    let var = rec("Translation", 4, &[0x0409, 0x04b0], &[]);
    let vfi = rec("VarFileInfo", 0, &[], &siblings(&[var]));
    let mut fixed = vec![0u16; 26];
    fixed[0] = 0x04bd;
    fixed[1] = 0xfeef;
    fixed[4] = 3;
    fixed[5] = 4;
    fixed[6] = 1;
    fixed[7] = 2;
    let words = rec("VS_VERSION_INFO", 52, &fixed, &siblings(&[sfi, vfi]));
    words.iter().flat_map(|w| w.to_le_bytes()).collect()
}

fn put16(b: &mut [u8], at: usize, v: u16) {
    b[at..at + 2].copy_from_slice(&v.to_le_bytes());
}

fn put32(b: &mut [u8], at: usize, v: u32) {
    b[at..at + 4].copy_from_slice(&v.to_le_bytes());
}

/// A 32-bit PE DLL with one `.rsrc` section holding the version resource.
fn pe32_dll(info: &[u8]) -> Vec<u8> {
    const RSRC_RVA: u32 = 0x1000;
    const RSRC_FILE: usize = 0x200;
    let mut rsrc = vec![0u8; 0x58];
    // root directory: one id entry, RT_VERSION (16)
    put16(&mut rsrc, 14, 1);
    put32(&mut rsrc, 16, 16);
    put32(&mut rsrc, 20, 0x8000_0000 | 0x18);
    // type directory: one id entry, 1
    put16(&mut rsrc, 0x18 + 14, 1);
    put32(&mut rsrc, 0x18 + 16, 1);
    put32(&mut rsrc, 0x18 + 20, 0x8000_0000 | 0x30);
    // name directory: one language entry pointing at the data entry
    put16(&mut rsrc, 0x30 + 14, 1);
    put32(&mut rsrc, 0x30 + 16, 0x409);
    put32(&mut rsrc, 0x30 + 20, 0x48);
    // data entry
    put32(&mut rsrc, 0x48, RSRC_RVA + 0x58);
    put32(&mut rsrc, 0x48 + 4, info.len() as u32);
    rsrc.extend_from_slice(info);
    while rsrc.len() % 0x200 != 0 {
        rsrc.push(0);
    }

    let mut image = vec![0u8; RSRC_FILE];
    image[0] = b'M';
    image[1] = b'Z';
    put32(&mut image, 0x3c, 0x40);
    image[0x40..0x44].copy_from_slice(b"PE\0\0");
    let fh = 0x44;
    put16(&mut image, fh, 0x14c);
    put16(&mut image, fh + 2, 1);
    put16(&mut image, fh + 16, 224);
    put16(&mut image, fh + 18, 0x2102);
    let oh = fh + 20;
    put16(&mut image, oh, 0x10b);
    put32(&mut image, oh + 28, 0x1000_0000);
    put32(&mut image, oh + 32, 0x1000);
    put32(&mut image, oh + 36, 0x200);
    put32(&mut image, oh + 56, 0x1000 + rsrc.len() as u32);
    put32(&mut image, oh + 60, RSRC_FILE as u32);
    put16(&mut image, oh + 68, 2);
    put32(&mut image, oh + 92, 16);
    put32(&mut image, oh + 96 + 2 * 8, RSRC_RVA);
    put32(&mut image, oh + 96 + 2 * 8 + 4, (0x58 + info.len()) as u32);
    let sh = oh + 224;
    image[sh..sh + 5].copy_from_slice(b".rsrc");
    put32(&mut image, sh + 8, rsrc.len() as u32);
    put32(&mut image, sh + 12, RSRC_RVA);
    put32(&mut image, sh + 16, rsrc.len() as u32);
    put32(&mut image, sh + 20, RSRC_FILE as u32);
    put32(&mut image, sh + 36, 0x4000_0040);
    image.extend_from_slice(&rsrc);
    image
}

/// The image as read from disk: a heap buffer, which the allocator aligns
/// as pelite asks.
fn read(bytes: &[u8]) -> Option<String> {
    let buffer: Vec<u8> = bytes.to_vec();
    read_pe_version_bytes(&buffer)
}

#[test]
fn reads_bepinex_version_from_pe32_dll() {
    let dll = pe32_dll(&version_info(Some("5.4.20.0"), "5.4.20"));
    let version = read(&dll).expect("version should be readable");
    assert!(version_matches_required(&version), "expected {REQUIRED_VERSION}, got {version}");
    assert_eq!(version, "5.4.20.0");
}

#[test]
fn product_version_stands_in_for_a_missing_file_version() {
    let dll = pe32_dll(&version_info(None, "5.4.21"));
    assert_eq!(read(&dll).as_deref(), Some("5.4.21"));
}
