use dumper::catalog::DumpMod;
use dumper::exports::{enumerate, read_name};
use dumper::image::{DumpError, ImageView};
use dumper::stub::{classify, fallback_id, is_stub, StubClass};

const BASE: usize = 0x7ff0_0000_0000;
const DIR: usize = 0x200;
const FUNCS: usize = 0x300;
const NAMES: usize = 0x340;
const ORDS: usize = 0x380;
const NAME_AREA: usize = 0x400;
const CODE_AREA: usize = 0x800;

fn put_u16(b: &mut [u8], off: usize, v: u16) {
    b[off..off + 2].copy_from_slice(&v.to_le_bytes());
}

fn put_u32(b: &mut [u8], off: usize, v: u32) {
    b[off..off + 4].copy_from_slice(&v.to_le_bytes());
}

fn put_u64(b: &mut [u8], off: usize, v: u64) {
    b[off..off + 8].copy_from_slice(&v.to_le_bytes());
}

fn stub_code(call: u16) -> Vec<u8> {
    let c = call.to_le_bytes();
    vec![0x4C, 0x8B, 0xD1, 0xB8, c[0], c[1], 0x00, 0x00, 0x0F, 0x05, 0xC3, 0x00, 0x77, 0x05, 0x00, 0x00]
}

fn plain_code() -> Vec<u8> {
    vec![0x48, 0x83, 0xEC, 0x28, 0x90, 0x90, 0x90, 0x90, 0xC3, 0x00, 0x00, 0x00, 0x34, 0x12, 0x00, 0x00]
}

/// A mapped image exporting `funcs` in order, each function's code placed
/// at a 32-byte aligned offset of the code area.
fn build_image(funcs: &[(&str, Vec<u8>)], image_base: u64) -> Vec<u8> {
    let mut b = vec![0u8; 0x1000];
    put_u16(&mut b, 0, 0x5A4D);
    put_u32(&mut b, 0x3C, 0x80);
    put_u32(&mut b, 0x80, 0x4550);
    put_u64(&mut b, 0x80 + 48, image_base);
    put_u32(&mut b, 0x80 + 136, DIR as u32);
    put_u32(&mut b, DIR + 20, funcs.len() as u32);
    put_u32(&mut b, DIR + 28, FUNCS as u32);
    put_u32(&mut b, DIR + 32, NAMES as u32);
    put_u32(&mut b, DIR + 36, ORDS as u32);
    let mut name_at = NAME_AREA;
    for (i, (name, code)) in funcs.iter().enumerate() {
        let code_at = CODE_AREA + 32 * i;
        b[code_at..code_at + code.len()].copy_from_slice(code);
        put_u32(&mut b, FUNCS + 4 * i, code_at as u32);
        put_u32(&mut b, NAMES + 4 * i, name_at as u32);
        put_u16(&mut b, ORDS + 2 * i, i as u16);
        b[name_at..name_at + name.len()].copy_from_slice(name.as_bytes());
        name_at += name.len() + 1;
    }
    b
}

fn sample() -> Vec<u8> {
    build_image(
        &[
            ("NtClose", stub_code(0x0F)),
            ("RtlGetVersion", plain_code()),
            ("NtOpenFile", stub_code(0x33)),
        ],
        BASE as u64,
    )
}

#[test]
fn bad_legacy_magic_is_invalid_image() {
    let mut b = sample();
    b[0] = b'X';
    let img = ImageView::new(BASE, b);
    assert_eq!(img.export_directory(), Err(DumpError::InvalidImage));
    assert!(matches!(DumpMod::new("kernel32.dll", &img, false), Err(DumpError::InvalidImage)));
}

#[test]
fn bad_image_signature_is_invalid_image() {
    let mut b = sample();
    b[0x81] = b'Q';
    let img = ImageView::new(BASE, b);
    assert_eq!(img.export_directory(), Err(DumpError::InvalidImage));
}

#[test]
fn truncated_image_is_invalid_image() {
    let b = sample()[..0x100].to_vec();
    let img = ImageView::new(BASE, b);
    assert_eq!(img.export_directory(), Err(DumpError::InvalidImage));
    let tiny = ImageView::new(BASE, vec![0x4D]);
    assert_eq!(tiny.export_directory(), Err(DumpError::InvalidImage));
}

#[test]
fn zero_functions_is_empty_export_table() {
    let b = build_image(&[], BASE as u64);
    let img = ImageView::new(BASE, b);
    assert_eq!(img.export_directory(), Err(DumpError::EmptyExportTable));
    assert!(matches!(DumpMod::new("x.dll", &img, false), Err(DumpError::EmptyExportTable)));
}

#[test]
fn export_directory_fields() {
    let img = ImageView::new(BASE, sample());
    let d = img.export_directory().unwrap();
    assert_eq!(d.image_base, BASE as u64);
    assert_eq!(d.number_of_functions, 3);
    assert_eq!(d.address_of_functions, FUNCS as u32);
    assert_eq!(d.address_of_names, NAMES as u32);
    assert_eq!(d.address_of_name_ordinals, ORDS as u32);
}

#[test]
fn full_enumeration_keeps_every_declared_function() {
    let img = ImageView::new(BASE, sample());
    let m = DumpMod::new("kernel32.dll", &img, false).unwrap();
    let e = m.get_exports();
    assert_eq!(e.len(), 3);
    let names: Vec<&str> = e.iter().map(|f| f.get_name()).collect();
    assert_eq!(names, vec!["NtClose", "RtlGetVersion", "NtOpenFile"]);
    for (i, f) in e.iter().enumerate() {
        assert_eq!(f.get_number(), i as u32);
        assert_eq!(f.get_addr(), BASE + CODE_AREA + 32 * i);
    }
    assert_eq!(m.get_handle(), BASE);
    assert_eq!(m.get_name(), "kernel32.dll");
}

#[test]
fn full_enumeration_uses_fallback_identifier() {
    let img = ImageView::new(BASE, sample());
    let m = DumpMod::new("kernel32.dll", &img, false).unwrap();
    // upper half of the word 8 bytes past each function's aligned start
    assert_eq!(m.get_exports()[0].get_ord(), 0x577);
    assert_eq!(m.get_exports()[1].get_ord(), 0x234);
}

#[test]
fn rva_relations_hold_at_declared_base() {
    let img = ImageView::new(BASE, sample());
    let m = DumpMod::new("kernel32.dll", &img, false).unwrap();
    for f in m.get_exports() {
        assert_eq!(f.get_addr(), m.get_handle() + f.get_rva());
        assert_eq!(f.get_rva(), f.get_addr() - BASE);
    }
    assert_eq!(m.get_exports()[1].get_rva(), CODE_AREA + 32);
}

#[test]
fn rva_is_taken_from_declared_base_when_relocated() {
    let declared: u64 = 0x1_8000_0000;
    let b = build_image(&[("A", plain_code())], declared);
    let img = ImageView::new(BASE, b);
    let m = DumpMod::new("a.dll", &img, false).unwrap();
    let f = &m.get_exports()[0];
    assert_eq!(f.get_rva(), f.get_addr().wrapping_sub(declared as usize));
    assert_eq!(f.get_rva(), BASE + CODE_AREA - declared as usize);
}

#[test]
fn rva_wraps_below_declared_base() {
    let declared: u64 = 0xFFFF_0000_0000_0000;
    let b = build_image(&[("A", plain_code())], declared);
    let img = ImageView::new(BASE, b);
    let m = DumpMod::new("a.dll", &img, false).unwrap();
    let f = &m.get_exports()[0];
    assert_eq!(f.get_rva(), (BASE + CODE_AREA).wrapping_sub(declared as usize));
}

#[test]
fn syscall_enumeration_keeps_stubs_with_call_numbers() {
    let img = ImageView::new(BASE, sample());
    let m = DumpMod::new("ntdll.dll", &img, true).unwrap();
    let e = m.get_exports();
    assert_eq!(e.len(), 2);
    assert_eq!(e[0].get_name(), "NtClose");
    assert_eq!(e[0].get_ord(), 0x0F);
    assert_eq!(e[0].get_number(), 0);
    assert_eq!(e[1].get_name(), "NtOpenFile");
    assert_eq!(e[1].get_ord(), 0x33);
    assert_eq!(e[1].get_number(), 2);
    for f in e {
        assert!(f.get_ord() < 4096);
        assert_eq!(f.get_rva(), f.get_addr() - BASE);
    }
}

#[test]
fn syscall_flag_alone_selects_stubs() {
    let img = ImageView::new(BASE, sample());
    let m = DumpMod::new("kernel32.dll", &img, true).unwrap();
    let names: Vec<&str> = m.get_exports().iter().map(|f| f.get_name()).collect();
    assert_eq!(names, vec!["NtClose", "NtOpenFile"]);
    let full = DumpMod::new("ntdll.dll", &img, false).unwrap();
    assert_eq!(full.get_exports().len(), 3);
}

#[test]
fn stub_with_call_number_past_image_end_is_invalid_image() {
    let mut b = sample();
    // the last function's code is moved to the last four bytes of the image
    put_u32(&mut b, FUNCS + 8, 0xFFC);
    b[0xFFC..0x1000].copy_from_slice(&[0x4C, 0x8B, 0xD1, 0xB8]);
    let img = ImageView::new(BASE, b);
    assert!(is_stub(&img, BASE + 0xFFC));
    assert_eq!(classify(&img, BASE + 0xFFC), Err(DumpError::InvalidImage));
    assert!(matches!(DumpMod::new("ntdll.dll", &img, true), Err(DumpError::InvalidImage)));
    assert_eq!(DumpMod::new("ntdll.dll", &img, false).unwrap().get_exports().len(), 3);
}

#[test]
fn prologue_alone_makes_a_stub() {
    let img = ImageView::new(0x2000, vec![0x4C, 0x8B, 0xD1, 0xB8]);
    assert!(is_stub(&img, 0x2000));
    assert_eq!(classify(&img, 0x2000), Err(DumpError::InvalidImage));
    let other = ImageView::new(0x2000, vec![0x4C, 0x8B, 0xD1, 0xB9]);
    assert!(!is_stub(&other, 0x2000));
    assert_eq!(classify(&other, 0x2000), Ok(StubClass::NotAStub));
    let short = ImageView::new(0x2000, vec![0x4C, 0x8B, 0xD1]);
    assert!(!is_stub(&short, 0x2000));
}

#[test]
fn call_number_keeps_twelve_bits() {
    let b = build_image(&[("NtBig", stub_code(0x1234))], BASE as u64);
    let img = ImageView::new(BASE, b);
    let m = DumpMod::new("ntdll", &img, true).unwrap();
    assert_eq!(m.get_exports()[0].get_ord(), 0x234);
}

#[test]
fn out_of_range_function_index_is_invalid_image() {
    let mut b = sample();
    put_u16(&mut b, ORDS + 2, 7);
    let img = ImageView::new(BASE, b);
    let d = img.export_directory().unwrap();
    assert!(matches!(enumerate(&img, &d, false), Err(DumpError::InvalidImage)));
}

#[test]
fn array_outside_image_is_invalid_image() {
    let mut b = sample();
    put_u32(&mut b, DIR + 32, 0xFFF0);
    let img = ImageView::new(BASE, b);
    assert!(matches!(DumpMod::new("k.dll", &img, false), Err(DumpError::InvalidImage)));
}

#[test]
fn undecodable_name_becomes_empty() {
    let mut b = sample();
    let at = NAME_AREA + "NtClose".len() + 1;
    b[at] = 0xFF;
    let img = ImageView::new(BASE, b);
    let m = DumpMod::new("k.dll", &img, false).unwrap();
    assert_eq!(m.get_exports().len(), 3);
    assert_eq!(m.get_exports()[1].get_name(), "");
    assert_eq!(m.get_exports()[2].get_name(), "NtOpenFile");
}

#[test]
fn read_name_edges() {
    let b = vec![b'a', b'b', 0, b'c', b'd'];
    assert_eq!(read_name(&b, 0), "ab");
    assert_eq!(read_name(&b, 2), "");
    assert_eq!(read_name(&b, 3), "");
    assert_eq!(read_name(&b, 9), "");
    let utf8 = vec![0xC3, 0xA9, 0];
    assert_eq!(read_name(&utf8, 0), "\u{e9}");
}

#[test]
fn find_by_exact_name() {
    let img = ImageView::new(BASE, sample());
    let m = DumpMod::new("kernel32.dll", &img, false).unwrap();
    let f = m.search_fn("RtlGetVersion").unwrap();
    assert_eq!(f.get_name(), "RtlGetVersion");
    assert_eq!(f.get_number(), 1);
    assert!(m.search_fn("RtlGetVersio").is_none());
    assert!(m.search_fn("NtCloseX").is_none());
    assert!(m.search_fn("ntclose").is_none());
}

#[test]
fn find_by_call_number() {
    let img = ImageView::new(BASE, sample());
    let m = DumpMod::new("ntdll.dll", &img, true).unwrap();
    let f = m.search_fn(0x33usize).unwrap();
    assert_eq!(f.get_name(), "NtOpenFile");
    assert!(m.search_fn(0x34usize).is_none());
}

#[test]
fn render_is_stable_and_exact() {
    let b = build_image(&[("NtClose", stub_code(0x0F))], BASE as u64);
    let img = ImageView::new(BASE, b);
    let m = DumpMod::new("ntdll.dll", &img, true).unwrap();
    let a = m.render();
    assert_eq!(a, m.render());
    let expected = format!(
        "{:<14} {:<15} {:<15} {:<15} {}\n0x{:x} {:<15} 0x{:<15x} 0x{:<15x} {}\nModule name: {} base address: 0x{:x}\n",
        "addr", "ordinal", "RVA", "number", "name",
        BASE + CODE_AREA, 15, CODE_AREA, 0, "NtClose",
        "ntdll.dll", BASE
    );
    assert_eq!(a, expected);
    assert!(a.contains("0x7ff000000800 15              0x800             0x0               NtClose\n"));
}

#[test]
fn classify_stub_and_misaligned() {
    let img = ImageView::new(BASE, sample());
    assert_eq!(classify(&img, BASE + CODE_AREA), Ok(StubClass::SyscallStub(0x0F)));
    assert_eq!(classify(&img, BASE + CODE_AREA + 32), Ok(StubClass::NotAStub));
    assert_eq!(classify(&img, BASE + CODE_AREA + 1), Ok(StubClass::NotAStub));
    assert_eq!(classify(&img, BASE + CODE_AREA + 2), Ok(StubClass::NotAStub));
    assert_eq!(classify(&img, BASE - 4), Ok(StubClass::NotAStub));
    assert_eq!(classify(&img, BASE + 0x1000), Ok(StubClass::NotAStub));
    assert!(is_stub(&img, BASE + CODE_AREA));
    assert!(!is_stub(&img, BASE + CODE_AREA + 2));
}

#[test]
fn classify_depends_on_the_bytes_only() {
    let img1 = ImageView::new(BASE, sample());
    let mut other = vec![0u8; 0x40];
    other[0x10..0x20].copy_from_slice(&stub_code(0x0F));
    let img2 = ImageView::new(0x5000, other);
    assert_eq!(classify(&img1, BASE + CODE_AREA), classify(&img2, 0x5010));
    let four = ImageView::new(0x5010, stub_code(0x0F)[..4].to_vec());
    assert_eq!(is_stub(&img1, BASE + CODE_AREA), is_stub(&four, 0x5010));
    assert_eq!(classify(&img1, BASE + CODE_AREA), classify(&img1, BASE + CODE_AREA));
}

#[test]
fn fallback_identifier_reads_following_word() {
    let img = ImageView::new(BASE, sample());
    assert_eq!(fallback_id(&img, BASE + CODE_AREA + 32), 0x234);
    assert_eq!(fallback_id(&img, BASE + CODE_AREA + 32 + 5), 0x234);
    assert_eq!(fallback_id(&img, BASE + 0x1000), 0);
}

#[test]
fn record_line_matches_table_row() {
    let img = ImageView::new(BASE, sample());
    let m = DumpMod::new("kernel32.dll", &img, false).unwrap();
    let f = &m.get_exports()[1];
    let expected = format!(
        "0x{:x} {:<15} 0x{:<15x} 0x{:<15x} {}",
        f.get_addr(), f.get_ord(), f.get_rva(), f.get_number(), f.get_name()
    );
    assert_eq!(f.render(), expected);
    assert!(m.render().contains(&format!("{}\n", expected)));
}
