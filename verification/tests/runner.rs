use aya_log_core::runner::{
    cache_mismatch, dir_line, file_line, guest_arch, kernel_args, parse_image_and_modules,
    split_runner, succeeded, track_init, verdict, Guest, HangDetector, InitError, InvalidInput,
    Outcome,
};
use aya_log_core::text::{cut_once, find, same, split_on, starts_at, trimmed};

#[test]
fn image_and_modules() {
    assert_eq!(
        parse_image_and_modules("/boot/vmlinuz:/lib/modules"),
        Ok(("/boot/vmlinuz".to_string(), "/lib/modules".to_string()))
    );
    assert_eq!(parse_image_and_modules(":"), Ok((String::new(), String::new())));
    assert_eq!(parse_image_and_modules("a:"), Ok(("a".to_string(), String::new())));
    assert_eq!(parse_image_and_modules(":b"), Ok((String::new(), "b".to_string())));
    assert_eq!(
        parse_image_and_modules("bild/größe:mödule"),
        Ok(("bild/größe".to_string(), "mödule".to_string()))
    );
    assert_eq!(parse_image_and_modules(""), Err(InvalidInput));
    assert_eq!(parse_image_and_modules("no-colon"), Err(InvalidInput));
    assert_eq!(parse_image_and_modules("a:b:c"), Err(InvalidInput));
    assert_eq!(parse_image_and_modules("::"), Err(InvalidInput));
}

#[test]
fn exit_codes_and_cache_state() {
    assert!(succeeded(Some(0)));
    assert!(!succeeded(Some(1)));
    assert!(!succeeded(Some(-1)));
    assert!(!succeeded(None));
    assert!(cache_mismatch(false, true));
    assert!(!cache_mismatch(true, true));
    assert!(!cache_mismatch(false, false));
    assert!(!cache_mismatch(true, false));
}

#[test]
fn runner_command() {
    assert_eq!(split_runner(b"sudo -E"), Some((b"sudo".to_vec(), vec![b"-E".to_vec()])));
    assert_eq!(split_runner(b"  sudo -E \n"), Some((b"sudo".to_vec(), vec![b"-E".to_vec()])));
    assert_eq!(split_runner(b"doas"), Some((b"doas".to_vec(), vec![])));
    assert_eq!(
        split_runner(b"a  b"),
        Some((b"a".to_vec(), vec![b"".to_vec(), b"b".to_vec()]))
    );
    assert_eq!(split_runner(b""), None);
    assert_eq!(split_runner(b" \t "), None);
}

#[test]
fn searching_and_cutting() {
    assert_eq!(find(b"hello world", b"o"), Some(4));
    assert_eq!(find(b"hello world", b"world"), Some(6));
    assert_eq!(find(b"hello world", b"worlds"), None);
    assert_eq!(find(b"hello", b""), Some(0));
    assert_eq!(find(b"", b""), Some(0));
    assert_eq!(find(b"", b"a"), None);
    assert_eq!(find(b"aab", b"ab"), Some(1));
    assert!(starts_at(b"abc", 1, b"bc"));
    assert!(starts_at(b"abc", 3, b""));
    assert!(!starts_at(b"abc", 4, b""));
    assert!(!starts_at(b"abc", 2, b"cd"));
    assert!(same(b"abc", b"abc"));
    assert!(!same(b"abc", b"abd"));
    assert!(!same(b"abc", b"ab"));
    assert_eq!(cut_once(b"k=v=w", b"="), Some((b"k".to_vec(), b"v=w".to_vec())));
    assert_eq!(cut_once(b"kv", b"="), None);
    assert_eq!(split_on(b"", b','), vec![b"".to_vec()]);
    assert_eq!(split_on(b"a,b,,c,", b','), vec![
        b"a".to_vec(),
        b"b".to_vec(),
        b"".to_vec(),
        b"c".to_vec(),
        b"".to_vec()
    ]);
    assert_eq!(trimmed(b" \t x y \r\n"), b"x y".to_vec());
    assert_eq!(trimmed(b"xy"), b"xy".to_vec());
    assert_eq!(trimmed(b"  "), b"".to_vec());
    assert_eq!(trimmed(b""), b"".to_vec());
    // white space is what Unicode calls so
    let samples = [
        "",
        " ",
        "\u{85}x\u{a0}",
        "\u{1680}\u{2000}a b\u{200a}\u{2028}\u{2029}",
        "\u{202f}\u{205f}\u{3000}",
        "\u{3000}größe\u{2003}\t",
        "\u{200b}x\u{200b}",
        "\u{2060} x \u{feff}",
        "x\u{e2}",
        "\u{0b}\u{0c}\u{1c}x\u{1f}\r\n",
    ];
    for sample in samples {
        assert_eq!(trimmed(sample.as_bytes()), sample.trim().as_bytes().to_vec(), "{sample:?}");
    }
    for code in 0u32..0x3100 {
        if let Some(c) = char::from_u32(code) {
            let text = format!("{c}a{c}");
            assert_eq!(trimmed(text.as_bytes()), text.trim().as_bytes().to_vec(), "{code:x}");
        }
    }
}

#[test]
fn guest_architecture() {
    assert_eq!(
        guest_arch(b"Linux kernel ARM64 boot executable Image, little-endian, 4K pages"),
        Some(b"ARM64".to_vec())
    );
    assert_eq!(
        guest_arch(b"Linux kernel x86 boot executable bzImage, version 6.1.0-10-cloud-amd64"),
        Some(b"x86".to_vec())
    );
    assert_eq!(guest_arch(b"Linux kernelboot executable"), Some(b"".to_vec()));
    assert_eq!(guest_arch(b"ELF 64-bit LSB executable"), None);
    assert_eq!(guest_arch(b"Linux kernel ARM64 Image"), None);
    assert_eq!(guest_arch(b"boot executable Linux kernel"), None);
}

#[test]
fn guest_settings() {
    let arm = Guest::of(b"ARM64");
    assert_eq!(
        arm,
        Guest {
            arch: b"aarch64".to_vec(),
            machine: Some("virt"),
            cpu: Some("max"),
            console: "ttyAMA0"
        }
    );
    assert_eq!(arm.target(), b"aarch64-unknown-linux-musl".to_vec());
    assert_eq!(arm.qemu(), b"qemu-system-aarch64".to_vec());
    let x86 = Guest::of(b"x86");
    assert_eq!(
        x86,
        Guest { arch: b"x86_64".to_vec(), machine: None, cpu: None, console: "ttyS0" }
    );
    assert_eq!(x86.target(), b"x86_64-unknown-linux-musl".to_vec());
    let other = Guest::of(b"riscv64");
    assert_eq!(
        other,
        Guest { arch: b"riscv64".to_vec(), machine: None, cpu: None, console: "ttyS0" }
    );
    assert_eq!(other.qemu(), b"qemu-system-riscv64".to_vec());
}

#[test]
fn initramfs_lines() {
    assert_eq!(dir_line(b"/bin"), b"dir /bin 755 0 0\n".to_vec());
    assert_eq!(dir_line(b""), b"dir  755 0 0\n".to_vec());
    assert_eq!(
        file_line(b"/init", b"/tmp/target/init", b"755 0 0"),
        b"file /init /tmp/target/init 755 0 0\n".to_vec()
    );
    assert_eq!(
        file_line(b"/lib/modules/x.ko", b"/m/x.ko", b"644 0 0"),
        b"file /lib/modules/x.ko /m/x.ko 644 0 0\n".to_vec()
    );
}

#[test]
fn kernel_command_line() {
    assert_eq!(kernel_args(b"ttyS0", &[]), b"console=ttyS0 noapic".to_vec());
    assert_eq!(
        kernel_args(b"ttyAMA0", &[b"--test-threads=1".to_vec(), b"--nocapture".to_vec()]),
        b"console=ttyAMA0 init.arg=--test-threads=1 init.arg=--nocapture noapic".to_vec()
    );
}

#[test]
fn hang_detection() {
    let mut d = HangDetector::new();
    assert_eq!(d.counts, [0, 0, 0]);
    assert_eq!(d.observe(b"[    1.0] booting"), None);
    assert_eq!(d.counts, [0, 0, 0]);
    // a soft lockup is tolerated once
    assert_eq!(d.observe(b"[ 2.0] watchdog: BUG: soft lockup - CPU#0 stuck"), None);
    assert_eq!(d.counts, [0, 0, 1]);
    assert_eq!(d.observe(b"watchdog: BUG: soft lockup"), Some(2));
    assert_eq!(d.observe(b"watchdog: BUG: soft lockup"), Some(2));
    assert_eq!(d.counts, [0, 0, 3]);
    // the others never
    assert_eq!(d.observe(b"---[ end Kernel panic - not syncing: x ]---"), Some(0));
    assert_eq!(d.observe(b"rcu: RCU grace-period kthread stack dump:"), Some(1));
    assert_eq!(d.counts, [1, 1, 3]);
    // a line counts for the first marker that it holds
    assert_eq!(d.observe(b"watchdog: BUG: soft lockup; end Kernel panic"), Some(0));
    assert_eq!(d.counts, [2, 1, 3]);
    let mut full = HangDetector { counts: [usize::MAX, 0, 0] };
    assert_eq!(full.observe(b"end Kernel panic"), Some(0));
    assert_eq!(full.counts, [usize::MAX, 0, 0]);
}

#[test]
fn init_reports() {
    let mut outcome = None;
    assert_eq!(track_init(&mut outcome, b"starting"), Ok(()));
    assert_eq!(track_init(&mut outcome, b" init: success"), Ok(()));
    assert_eq!(track_init(&mut outcome, b"init:success"), Ok(()));
    assert_eq!(outcome, None);
    assert_eq!(verdict(outcome), Err(InitError::DidNotExit));
    assert_eq!(
        track_init(&mut outcome, b"init: maybe"),
        Err(InitError::Unexpected { output: b"maybe".to_vec() })
    );
    assert_eq!(
        track_init(&mut outcome, b"init: "),
        Err(InitError::Unexpected { output: b"".to_vec() })
    );
    assert_eq!(
        track_init(&mut outcome, b"init: success "),
        Err(InitError::Unexpected { output: b"success ".to_vec() })
    );
    assert_eq!(outcome, None);
    assert_eq!(track_init(&mut outcome, b"init: success"), Ok(()));
    assert_eq!(outcome, Some(Outcome::Success));
    assert_eq!(verdict(outcome), Ok(true));
    assert_eq!(
        track_init(&mut outcome, b"init: failure"),
        Err(InitError::Multiple { previous: Outcome::Success, current: Outcome::Failure })
    );
    assert_eq!(outcome, Some(Outcome::Failure));
    assert_eq!(verdict(outcome), Ok(false));
    let mut fresh = None;
    assert_eq!(track_init(&mut fresh, b"init: failure"), Ok(()));
    assert_eq!(fresh, Some(Outcome::Failure));
}
