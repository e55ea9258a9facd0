//! The command line.

use realesrgan::cli::number;
use realesrgan::cli::parse;
use realesrgan::cli::Command;
use realesrgan::cli::Options;

fn read(args: &[&str]) -> Command {
    let v: Vec<String> = args.iter().map(|a| a.to_string()).collect();
    parse(&v, "gpu")
}

fn options(args: &[&str]) -> Options {
    match read(args) {
        Command::Run(o) => o,
        _ => panic!("not run"),
    }
}

#[test]
fn flags_are_read() {
    let o = options(&["-m", "a", "-i", "b", "-o", "-", "--device", "cpu"]);
    assert_eq!(o.model.as_deref(), Some("a"));
    assert_eq!(o.input.as_deref(), Some("b"));
    assert_eq!(o.output.as_deref(), Some("-"));
    assert_eq!(o.device, "cpu");
    assert_eq!((o.tile, o.tile_pad), (0, 10));
    assert!(!o.quiet && !o.self_test && !o.cuda_selftest && !o.bench_conv && !o.bench_gemm);
    let o = options(&["--model", "x", "--tile", "256", "--tile-pad", "64", "--outscale", "3.5"]);
    assert_eq!((o.tile, o.tile_pad), (256, 64));
    assert_eq!(o.outscale.as_deref(), Some("3.5"));
    assert_eq!(o.device, "gpu");
    let o = options(&["-q", "--self-test", "--cuda-selftest", "--bench-conv", "--bench-gemm"]);
    assert!(o.quiet && o.self_test && o.cuda_selftest && o.bench_conv && o.bench_gemm);
    assert!(options(&["--quiet"]).quiet);
}

#[test]
fn values_are_taken_whatever_they_are() {
    assert_eq!(options(&["-i", "-q"]).input.as_deref(), Some("-q"));
    assert_eq!(options(&["-m", "a", "-m", "b"]).model.as_deref(), Some("b"));
    assert_eq!(options(&["-m", "a", "--model"]).model, None);
    assert_eq!(options(&["--outscale"]).outscale, None);
}

#[test]
fn bad_command_lines_explain_the_usage() {
    assert!(matches!(read(&[]), Command::Usage));
    assert!(matches!(read(&["-h"]), Command::Usage));
    assert!(matches!(read(&["--help", "--nonsense"]), Command::Usage));
    assert!(matches!(read(&["--device"]), Command::Usage));
    assert!(matches!(read(&["--tile"]), Command::Usage));
    assert!(matches!(read(&["--tile", "x"]), Command::Usage));
    assert!(matches!(read(&["--tile-pad", "-1"]), Command::Usage));
    assert!(matches!(read(&["-V"]), Command::Version));
    assert!(matches!(read(&["--version", "-h"]), Command::Version));
    match read(&["-q", "--bogus", "-h"]) {
        Command::Unknown(a) => assert_eq!(a, "--bogus"),
        _ => panic!("not unknown"),
    }
}

#[test]
fn numbers_are_read_as_the_standard_library_reads_them() {
    for t in [
        "0", "7", "0012", "+5", "", "+", "-1", "++1", "1 ", " 1", "1_0", "12a", "18446744073709551615",
        "18446744073709551616", "99999999999999999999999", "+-3",
    ] {
        assert_eq!(number(t), t.parse::<usize>().ok(), "{t}");
    }
}
