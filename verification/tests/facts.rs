use sysfetch::error::FactError;
use sysfetch::hardware::{
    get_cpu_model, get_gpu_info, get_host, get_kernel_version, get_memory_info,
    get_motherboard_info, get_motherboard_name, get_motherboard_vendor,
};
use sysfetch::packages::{
    count_apt_packages, count_dnf_packages, count_lines, count_pacman_packages,
    count_snap_packages, get_formatted_package_count, is_app_installed, PackageManager,
};
use sysfetch::render::{fact_lines, gpu_model, side_by_side, Report};
use sysfetch::shell::{get_shell_name, get_shell_version, get_terminal_name};
use sysfetch::uptime::{get_formatted_uptime, get_uptime, Uptime};

fn whole(seconds: u64) -> Uptime {
    Uptime { seconds, partial: false }
}

fn beyond(seconds: u64) -> Uptime {
    Uptime { seconds, partial: true }
}

#[test]
fn uptime_of_ninety_seconds_rounds_up() {
    assert_eq!(get_formatted_uptime(whole(90)), "2 Minutes");
}

#[test]
fn uptime_of_an_hour_and_a_minute() {
    assert_eq!(get_formatted_uptime(whole(3660)), "1 Hours 1 Minutes");
}

#[test]
fn uptime_of_a_day_and_an_hour() {
    assert_eq!(get_formatted_uptime(whole(90000)), "1 Days 1 Hours 0 Minutes");
}

#[test]
fn uptime_names_units_by_whole_days_and_hours() {
    assert_eq!(get_formatted_uptime(whole(0)), "0 Minutes");
    assert_eq!(get_formatted_uptime(whole(3599)), "60 Minutes");
    assert_eq!(get_formatted_uptime(whole(3600)), "1 Hours 0 Minutes");
    assert_eq!(get_formatted_uptime(whole(86399)), "24 Hours 60 Minutes");
    assert_eq!(get_formatted_uptime(whole(86400)), "1 Days 0 Hours 0 Minutes");
    assert_eq!(get_formatted_uptime(whole(86460)), "1 Days 0 Hours 1 Minutes");
    assert_eq!(get_formatted_uptime(whole(216000)), "2 Days 12 Hours 0 Minutes");
}

#[test]
fn uptime_rounds_each_figure_by_itself() {
    assert_eq!(get_formatted_uptime(whole(30)), "0 Minutes");
    assert_eq!(get_formatted_uptime(beyond(30)), "1 Minutes");
    assert_eq!(get_formatted_uptime(beyond(29)), "0 Minutes");
    assert_eq!(get_formatted_uptime(whole(150)), "2 Minutes");
    assert_eq!(get_formatted_uptime(whole(210)), "4 Minutes");
    assert_eq!(get_formatted_uptime(whole(5400)), "2 Hours 30 Minutes");
    assert_eq!(get_formatted_uptime(whole(9000)), "2 Hours 30 Minutes");
    assert_eq!(get_formatted_uptime(beyond(9000)), "3 Hours 30 Minutes");
    assert_eq!(get_formatted_uptime(whole(129600)), "2 Days 12 Hours 0 Minutes");
    assert_eq!(get_formatted_uptime(whole(u64::MAX)), "213503982334601 Days 7 Hours 0 Minutes");
}

fn by_floating_point(secs: f64) -> String {
    let days = secs / 86400.0;
    let hours = (secs % 86400.0) / 3600.0;
    let mins = (secs % 3600.0) / 60.0;
    if days.trunc() == 0.0 && hours.trunc() == 0.0 {
        format!("{:.0} Minutes", mins)
    } else if days.trunc() == 0.0 {
        format!("{:.0} Hours {:.0} Minutes", hours, mins)
    } else {
        format!("{:.0} Days {:.0} Hours {:.0} Minutes", days, hours, mins)
    }
}

#[test]
fn uptime_agrees_with_floating_point() {
    let mut s: u64 = 0;
    while s < 400000 {
        assert_eq!(get_formatted_uptime(whole(s)), by_floating_point(s as f64), "{}", s);
        assert_eq!(get_formatted_uptime(beyond(s)), by_floating_point(s as f64 + 0.25), "{}", s);
        s += 7;
    }
    for s in [30u64, 90, 150, 1800, 5400, 43200, 129600, 216000, 3599, 86399] {
        assert_eq!(get_formatted_uptime(whole(s)), by_floating_point(s as f64), "{}", s);
        assert_eq!(get_formatted_uptime(beyond(s)), by_floating_point(s as f64 + 0.5), "{}", s);
    }
}

#[test]
fn get_uptime_reads_the_first_token() {
    assert_eq!(get_uptime(Some("12345.67 54321.00\n")), beyond(12345));
    assert_eq!(get_uptime(Some("90.00 10.5")), whole(90));
    assert_eq!(get_uptime(Some("  3660 1")), whole(3660));
    assert_eq!(get_uptime(Some("+7.")), whole(7));
    assert_eq!(get_uptime(Some(".5")), beyond(0));
    assert_eq!(get_uptime(Some("18446744073709551615.0001")), beyond(u64::MAX));
    assert_eq!(get_uptime(Some("1.00000000000000000000000000001")), beyond(1));
}

fn by_float_parser(text: &str) -> Uptime {
    let secs = text
        .split_whitespace()
        .next()
        .and_then(|token| token.parse::<f64>().ok())
        .unwrap_or(0.0);
    Uptime { seconds: secs.trunc() as u64, partial: secs.fract() != 0.0 }
}

#[test]
fn get_uptime_agrees_with_the_float_parser() {
    let texts = [
        "12345.67 54321.00\n",
        "90.00 10.5",
        "  3660 1",
        "00012.50",
        "+7.",
        "7.",
        ".5",
        "0",
        "0.0",
        "1e3",
        "1E3",
        "1.5e2",
        "1.5E2",
        "1.e3",
        ".5e1",
        "15e-1",
        "1e-3",
        "1e-1",
        "0e5",
        "0e-5",
        "1e0",
        "1e+0",
        "1e-0",
        "+1.25e+2",
        "1.25E+02",
        "125e-2",
        "100e-2",
        "0.000e10",
        "123456789e-4",
        "12.5e1",
        "12.5e0",
        "0.0625e2",
        "1e19",
        "1e00000000000000000000000002",
        "25e-00000000000000000000000001",
        "0e99999999999999999999999",
        "0.0e-99999999999999999999999",
        "1e3 2e3",
        "",
        "  \n",
        "x 1",
        "up 5",
        ".",
        "+",
        "e3",
        ".e3",
        "+e3",
        "1e",
        "1e+",
        "1e-",
        "1e3.5",
        "1e3e3",
        "1ee3",
        "1e 3",
        "1.2.3",
        "1.2.3e1",
        "1_000",
        "0x10",
        "1,5",
        "++1",
        "+-1",
    ];
    for text in texts {
        assert_eq!(get_uptime(Some(text)), by_float_parser(text), "{:?}", text);
    }
}

#[test]
fn get_uptime_moves_the_point_by_the_exponent() {
    assert_eq!(get_uptime(Some("1e3")), whole(1000));
    assert_eq!(get_uptime(Some("1.5e2")), whole(150));
    assert_eq!(get_uptime(Some("1.e3")), whole(1000));
    assert_eq!(get_uptime(Some("1234.5e-2")), beyond(12));
    assert_eq!(get_uptime(Some("1200e-2")), whole(12));
    assert_eq!(get_uptime(Some("5e-1")), beyond(0));
    assert_eq!(get_uptime(Some("0.0001e4")), whole(1));
    assert_eq!(get_uptime(Some("0.00011e4")), beyond(1));
    assert_eq!(get_uptime(Some("18446744073709551615e0")), whole(u64::MAX));
    assert_eq!(get_uptime(Some("1.8446744073709551615e19")), whole(u64::MAX));
    assert_eq!(get_uptime(Some("184467440737095516150e-1")), whole(u64::MAX));
    assert_eq!(get_uptime(Some("1e-99999999999999999999999")), beyond(0));
    assert_eq!(get_uptime(Some("0e99999999999999999999999")), whole(0));
}

#[test]
fn get_uptime_of_more_than_fits_is_zero() {
    assert_eq!(get_uptime(Some("18446744073709551616")), whole(0));
    assert_eq!(get_uptime(Some("1.8446744073709551616e19")), whole(0));
    assert_eq!(get_uptime(Some("1e20")), whole(0));
    assert_eq!(get_uptime(Some("1e99999999999999999999999")), whole(0));
    assert_eq!(get_uptime(Some("0.1e99999999999999999999999")), whole(0));
}

#[test]
fn get_uptime_falls_back_on_zero() {
    assert_eq!(get_uptime(None), whole(0));
    assert_eq!(get_uptime(Some("")), whole(0));
    assert_eq!(get_uptime(Some("  \n")), whole(0));
    assert_eq!(get_uptime(Some("up 5")), whole(0));
    assert_eq!(get_uptime(Some(".")), whole(0));
    assert_eq!(get_uptime(Some("+")), whole(0));
    assert_eq!(get_uptime(Some("1.2.3")), whole(0));
    assert_eq!(get_uptime(Some("-5")), whole(0));
    assert_eq!(get_uptime(Some("18446744073709551616")), whole(0));
}

#[test]
fn package_summary_lists_the_managers_that_count() {
    assert_eq!(get_formatted_package_count(120, 0, 0, 5), "apt:120 snap:5 ");
}

#[test]
fn package_summary_keeps_the_order() {
    assert_eq!(get_formatted_package_count(1, 2, 3, 4), "apt:1 dnf:2 pacman:3 snap:4 ");
    assert_eq!(get_formatted_package_count(0, 0, 0, 0), "");
    assert_eq!(get_formatted_package_count(0, 10, 0, 0), "dnf:10 ");
    assert_eq!(get_formatted_package_count(0, 0, 2048, 0), "pacman:2048 ");
    assert_eq!(
        get_formatted_package_count(usize::MAX, 0, 0, 1),
        format!("apt:{} snap:1 ", usize::MAX)
    );
}

#[test]
fn absent_manager_counts_nothing() {
    assert_eq!(count_apt_packages(None, Some(".\n.\n")), 0);
    assert_eq!(count_apt_packages(Some(false), Some(".\n.\n")), 0);
    assert_eq!(count_dnf_packages(Some(false), Some("a\nb")), 0);
    assert_eq!(count_pacman_packages(None, None), 0);
    assert_eq!(count_snap_packages(Some(false), None), 0);
    let apt = count_apt_packages(None, Some(".\n.\n"));
    assert_eq!(get_formatted_package_count(apt, 0, 0, 5), "snap:5 ");
}

#[test]
fn present_manager_counts_the_lines() {
    assert_eq!(count_apt_packages(Some(true), Some(".\n.\n.\n")), 3);
    assert_eq!(count_dnf_packages(Some(true), Some("a.x86_64 1 @r\nb.noarch 2 @r")), 2);
    assert_eq!(count_pacman_packages(Some(true), Some("")), 0);
    assert_eq!(count_snap_packages(Some(true), Some("Name Version\ncore 16\n")), 2);
    assert_eq!(count_snap_packages(Some(true), None), 0);
}

#[test]
fn count_lines_agrees_with_std() {
    for s in ["", "\n", "a", "a\n", "a\nb", "a\r\nb\r\n", "\n\n\n", ".\n.\n.\n.\n"] {
        assert_eq!(count_lines(s), s.lines().count(), "{:?}", s);
    }
}

#[test]
fn probe_counts_only_when_it_succeeds() {
    assert!(is_app_installed(Some(true)));
    assert!(!is_app_installed(Some(false)));
    assert!(!is_app_installed(None));
}

#[test]
fn managers_name_their_programs() {
    assert_eq!(PackageManager::Apt.name(), "apt");
    assert_eq!(PackageManager::Apt.probe_program(), "dpkg");
    assert_eq!(PackageManager::Apt.list_program(), "dpkg-query");
    assert_eq!(PackageManager::Apt.list_arguments(), vec!["-f", ".\n", "-W"]);
    assert_eq!(PackageManager::Dnf.name(), "dnf");
    assert_eq!(PackageManager::Dnf.probe_program(), "dnf");
    assert_eq!(PackageManager::Dnf.list_program(), "dnf");
    assert_eq!(PackageManager::Dnf.list_arguments(), vec!["list", "installed", "--quiet"]);
    assert_eq!(PackageManager::Pacman.name(), "pacman");
    assert_eq!(PackageManager::Pacman.probe_program(), "pacman");
    assert_eq!(PackageManager::Pacman.list_program(), "pacman");
    assert_eq!(PackageManager::Pacman.list_arguments(), vec!["-Q"]);
    assert_eq!(PackageManager::Snap.name(), "snap");
    assert_eq!(PackageManager::Snap.probe_program(), "snap");
    assert_eq!(PackageManager::Snap.list_program(), "snap");
    assert_eq!(PackageManager::Snap.list_arguments(), vec!["list"]);
}

#[test]
fn shell_version_without_output_is_the_placeholder() {
    assert_eq!(get_shell_version(None), "[version]");
}

#[test]
fn shell_version_is_the_first_line_trimmed() {
    assert_eq!(
        get_shell_version(Some("  zsh 5.9 (x86_64-debian-linux-gnu) \r\nmore\n")),
        "zsh 5.9 (x86_64-debian-linux-gnu)"
    );
    assert_eq!(get_shell_version(Some("GNU bash, version 5.2.15")), "GNU bash, version 5.2.15");
    assert_eq!(get_shell_version(Some("")), "[version]");
    assert_eq!(get_shell_version(Some("\nsecond")), "");
    assert_eq!(get_shell_version(Some("   \n")), "");
}

fn file_name_by_std(path: &str) -> String {
    std::path::Path::new(path)
        .file_name()
        .and_then(|name| name.to_str())
        .map(|s| s.to_string())
        .unwrap_or("[shell]".to_string())
}

#[test]
fn shell_name_agrees_with_std() {
    let paths = [
        "/usr/bin/zsh",
        "/bin/bash",
        "fish",
        "",
        "/",
        "//",
        ".",
        "..",
        "./",
        "./.",
        "/.",
        "/..",
        "a/.",
        "a/./",
        "a/..",
        "a/../",
        "a/.././",
        "a//b//",
        "./sh",
        "../sh",
        "...",
        "a/...",
        ".hidden",
        "/opt/my shell/bin/sh ",
        "/usr/bin/\u{e9}sh",
        "bin/.x/.",
        "/usr/./bin/./ksh/./",
    ];
    for path in paths {
        assert_eq!(get_shell_name(Some(path)), file_name_by_std(path), "{:?}", path);
    }
}

#[test]
fn shell_name_is_the_last_part_of_the_path() {
    assert_eq!(get_shell_name(Some("/usr/bin/zsh")), "zsh");
    assert_eq!(get_shell_name(Some("/bin/bash/")), "bash");
    assert_eq!(get_shell_name(None), "[shell]");
    assert_eq!(get_shell_name(Some("/")), "[shell]");
    assert_eq!(get_shell_name(Some("/usr/..")), "[shell]");
}

#[test]
fn terminal_name_or_its_placeholder() {
    assert_eq!(get_terminal_name(Some("xterm-256color")), "xterm-256color");
    assert_eq!(get_terminal_name(Some("")), "");
    assert_eq!(get_terminal_name(None), "Unknown Terminal");
}

#[test]
fn host_joins_vendor_and_product() {
    assert_eq!(get_host(Some("LENOVO\n"), Some("20L5000BUS\n")), Ok("LENOVO 20L5000BUS".to_string()));
    assert_eq!(get_host(Some(""), Some("")), Ok(" ".to_string()));
    assert_eq!(get_host(None, Some("x")), Err(FactError::Unavailable));
    assert_eq!(get_host(Some("x"), None), Err(FactError::Unavailable));
    assert_eq!(get_host(None, None), Err(FactError::Unavailable));
}

#[test]
fn motherboard_fields_are_trimmed() {
    assert_eq!(get_motherboard_vendor(Some(" ASUSTeK COMPUTER INC.\n")), Ok("ASUSTeK COMPUTER INC.".to_string()));
    assert_eq!(get_motherboard_name(Some("PRIME B450M-A\n")), Ok("PRIME B450M-A".to_string()));
    assert_eq!(get_motherboard_vendor(None), Err(FactError::Unavailable));
    assert_eq!(get_motherboard_name(None), Err(FactError::Unavailable));
    assert_eq!(
        get_motherboard_info(Some("ASUSTeK COMPUTER INC.\n"), Some("PRIME B450M-A\n")),
        Ok("ASUSTeK COMPUTER INC. PRIME B450M-A".to_string())
    );
    assert_eq!(get_motherboard_info(None, Some("PRIME\n")), Err(FactError::Unavailable));
    assert_eq!(get_motherboard_info(Some("ASUS\n"), None), Err(FactError::Unavailable));
}

#[test]
fn kernel_version_is_the_third_token() {
    assert_eq!(
        get_kernel_version(Some("Linux version 6.1.0-13-amd64 (debian-kernel@lists.debian.org)\n")),
        "6.1.0-13-amd64"
    );
    assert_eq!(get_kernel_version(Some("Linux version")), "Unknown");
    assert_eq!(get_kernel_version(Some("")), "Unknown");
    assert_eq!(get_kernel_version(Some("a\nb\tc")), "c");
    assert_eq!(get_kernel_version(None), "Unknown");
}

fn cpuinfo() -> &'static str {
    "processor\t: 0\nvendor_id\t: GenuineIntel\ncpu family\t: 6\nmodel\t\t: 142\nmodel name\t: Intel(R) Core(TM) i7-8550U CPU @ 1.80GHz\nstepping\t: 10\n"
}

#[test]
fn cpu_model_is_read_from_the_fifth_line() {
    assert_eq!(get_cpu_model(Some(cpuinfo())), Ok("Intel(R) Core(TM) i7-8550U CPU @ 1.80GHz".to_string()));
    assert_eq!(get_cpu_model(Some("a\nb\nc\nd\nk: v: w \n")), Ok("w".to_string()));
    assert_eq!(get_cpu_model(Some("a\nb\nc\nd\nk:")), Ok("".to_string()));
}

#[test]
fn cpu_model_without_descriptor_is_unavailable() {
    assert_eq!(get_cpu_model(None), Err(FactError::Unavailable));
}

#[test]
fn cpu_model_of_a_short_descriptor_is_malformed() {
    assert_eq!(get_cpu_model(Some("")), Err(FactError::Malformed));
    assert_eq!(get_cpu_model(Some("a: 1\nb: 2\nc: 3\nd: 4\n")), Err(FactError::Malformed));
    assert_eq!(get_cpu_model(Some("a: 1\nb: 2\nc: 3\nd: 4")), Err(FactError::Malformed));
}

#[test]
fn cpu_model_without_a_colon_is_malformed() {
    assert_eq!(get_cpu_model(Some("a\nb\nc\nd\nmodel name\n")), Err(FactError::Malformed));
}

fn listing() -> &'static str {
    "00:00.0 Host bridge [0600]: Intel Corporation Xeon E3-1200 [8086:5914] (rev 08)\n\tSubsystem: Lenovo Device [17aa:225d]\n00:02.0 VGA compatible controller [0300]: Intel Corporation UHD Graphics 620 [8086:5917] (rev 07)\n\tKernel driver in use: i915\n01:00.0 3D controller [0302]: NVIDIA Corporation GP108M [GeForce MX150] [10de:1d10] (rev a1)\n02:00.0 Network controller [0280]: Intel Corporation Wireless 8265 [8086:24fd]\n"
}

#[test]
fn gpu_info_keeps_the_adapter_lines() {
    assert_eq!(
        get_gpu_info(Some(listing())),
        Ok(vec![
            "00:02.0 VGA compatible controller [0300]: Intel Corporation UHD Graphics 620 [8086:5917] (rev 07)".to_string(),
            "01:00.0 3D controller [0302]: NVIDIA Corporation GP108M [GeForce MX150] [10de:1d10] (rev a1)".to_string(),
        ])
    );
    assert_eq!(get_gpu_info(Some("")), Ok(vec![]));
    assert_eq!(get_gpu_info(Some("vga\n3d controller\n3D  controller")), Ok(vec![]));
    assert_eq!(get_gpu_info(Some(" xVGAx \r\n")), Ok(vec![" xVGAx ".to_string()]));
}

#[test]
fn gpu_info_agrees_with_std() {
    let expected: Vec<String> = listing()
        .lines()
        .filter(|line| line.contains("VGA") || line.contains("3D controller"))
        .map(|s| s.to_string())
        .collect();
    assert_eq!(get_gpu_info(Some(listing())), Ok(expected));
}

#[test]
fn gpu_info_without_listing_is_unavailable() {
    assert_eq!(get_gpu_info(None), Err(FactError::Unavailable));
}

#[test]
fn gpu_model_is_cut_out_of_the_line() {
    assert_eq!(
        gpu_model("00:02.0 VGA compatible controller [0300]: Intel Corporation ... [8086:5917] (rev 07)"),
        Some("Intel Corporation ...".to_string())
    );
    assert_eq!(
        gpu_model("01:00.0 3D controller [0302]: NVIDIA Corporation GP108M [GeForce MX150] [10de:1d10] (rev a1)"),
        Some("NVIDIA Corporation GP108M".to_string())
    );
    assert_eq!(gpu_model("a:b:c"), Some("c".to_string()));
    assert_eq!(gpu_model("a:b: c d :e"), Some("c d".to_string()));
    assert_eq!(gpu_model("a:b:[c"), Some("".to_string()));
    assert_eq!(gpu_model("a:b:"), Some("".to_string()));
}

#[test]
fn gpu_model_needs_three_fields() {
    assert_eq!(gpu_model("00:02.0 VGA compatible controller"), None);
    assert_eq!(gpu_model("VGA"), None);
    assert_eq!(gpu_model(""), None);
}

#[test]
fn memory_info_divides_before_it_formats() {
    assert_eq!(
        get_memory_info(Some("MemTotal: 16000000 kB\nMemFree: 4000000 kB")),
        Ok("11718.00MB/15625.00MB".to_string())
    );
}

#[test]
fn memory_info_exact_values() {
    assert_eq!(
        get_memory_info(Some("MemTotal:       16303428 kB\nMemFree:         9026532 kB\nMemAvailable:   12345 kB\n")),
        Ok("7106.00MB/15921.00MB".to_string())
    );
    assert_eq!(get_memory_info(Some("a 1023\nb 0")), Ok("0.00MB/0.00MB".to_string()));
    assert_eq!(get_memory_info(Some("a 1024\nb 0")), Ok("1.00MB/1.00MB".to_string()));
    assert_eq!(get_memory_info(Some("a 0\nb 2048")), Ok("-2.00MB/0.00MB".to_string()));
    assert_eq!(get_memory_info(Some("a 0\nb 1000")), Ok("0.00MB/0.00MB".to_string()));
    assert_eq!(get_memory_info(Some("a -2049\nb +1")), Ok("-2.00MB/-2.00MB".to_string()));
    assert_eq!(
        get_memory_info(Some("a 9223372036854775807\nb -9223372036854775808")),
        Ok("18014398509481983.00MB/9007199254740991.00MB".to_string())
    );
    assert_eq!(
        get_memory_info(Some("a -9223372036854775808\nb 9223372036854775807")),
        Ok("-18014398509481983.00MB/-9007199254740992.00MB".to_string())
    );
}

#[test]
fn memory_info_without_descriptor_is_unavailable() {
    assert_eq!(get_memory_info(None), Err(FactError::Unavailable));
}

#[test]
fn memory_info_of_a_broken_descriptor_is_malformed() {
    assert_eq!(get_memory_info(Some("")), Err(FactError::Malformed));
    assert_eq!(get_memory_info(Some("MemTotal: 16000000 kB")), Err(FactError::Malformed));
    assert_eq!(get_memory_info(Some("MemTotal:\nMemFree: 4 kB")), Err(FactError::Malformed));
    assert_eq!(get_memory_info(Some("MemTotal: 16 kB\nMemFree")), Err(FactError::Malformed));
    assert_eq!(get_memory_info(Some("MemTotal: many kB\nMemFree: 4 kB")), Err(FactError::Malformed));
    assert_eq!(get_memory_info(Some("MemTotal: 16 kB\nMemFree: 4.5 kB")), Err(FactError::Malformed));
    assert_eq!(
        get_memory_info(Some("MemTotal: 9223372036854775808 kB\nMemFree: 4 kB")),
        Err(FactError::Malformed)
    );
}

fn report(gpus: Vec<String>) -> Report {
    Report {
        distro: "Debian GNU/Linux 12".to_string(),
        host: "LENOVO 20L5".to_string(),
        kernel: "6.1.0".to_string(),
        uptime: "2 Minutes".to_string(),
        packages: "apt:120 snap:5 ".to_string(),
        shell: "zsh 5.9".to_string(),
        terminal: "xterm".to_string(),
        motherboard: "LENOVO 20L5".to_string(),
        cpu: "Intel".to_string(),
        memory: "1.00MB/2.00MB".to_string(),
        gpus,
    }
}

#[test]
fn fact_lines_are_in_order() {
    let gpus = get_gpu_info(Some(listing())).unwrap();
    let lines = fact_lines(&report(gpus)).unwrap();
    let shown: Vec<(String, String)> =
        lines.iter().map(|f| (f.label.clone(), f.value.clone())).collect();
    let expected = [
        ("OS", "Debian GNU/Linux 12"),
        ("Host", "LENOVO 20L5"),
        ("Kernel", "6.1.0"),
        ("Uptime", "2 Minutes"),
        ("Packages", "apt:120 snap:5 "),
        ("Shell", "zsh 5.9"),
        ("Terminal", "xterm"),
        ("Motherboard", "LENOVO 20L5"),
        ("CPU", "Intel"),
        ("Memory", "1.00MB/2.00MB"),
        ("GPU 1", "Intel Corporation UHD Graphics 620"),
        ("GPU 2", "NVIDIA Corporation GP108M"),
    ];
    assert_eq!(shown.len(), expected.len());
    for i in 0..expected.len() {
        assert_eq!(shown[i].0, expected[i].0);
        assert_eq!(shown[i].1, expected[i].1);
    }
}

#[test]
fn fact_lines_number_many_adapters() {
    let gpus: Vec<String> = (0..12).map(|i| format!("0{}:00.0 VGA: card {} [x]", i, i)).collect();
    let lines = fact_lines(&report(gpus)).unwrap();
    assert_eq!(lines.len(), 22);
    assert_eq!(lines[10].label, "GPU 1");
    assert_eq!(lines[10].value, "card 0");
    assert_eq!(lines[19].label, "GPU 10");
    assert_eq!(lines[21].label, "GPU 12");
    assert_eq!(lines[21].value, "card 11");
}

#[test]
fn fact_lines_without_adapters() {
    let lines = fact_lines(&report(vec![])).unwrap();
    assert_eq!(lines.len(), 10);
    assert_eq!(lines[9].label, "Memory");
}

#[test]
fn fact_lines_with_a_line_that_names_no_model() {
    let r = fact_lines(&report(vec!["a:b:c".to_string(), "VGA".to_string()]));
    assert!(matches!(r, Err(FactError::Malformed)));
}

fn column(rows: &[&str]) -> Vec<String> {
    rows.iter().map(|s| s.to_string()).collect()
}

#[test]
fn side_by_side_fills_the_shorter_column() {
    let rows = side_by_side(&column(&["a1", "a2", "a3"]), &column(&["i1"]));
    let shown: Vec<(String, String)> = rows.iter().map(|r| (r.art.clone(), r.info.clone())).collect();
    assert_eq!(
        shown,
        vec![
            ("a1".to_string(), "i1".to_string()),
            ("a2".to_string(), " ".to_string()),
            ("a3".to_string(), " ".to_string()),
        ]
    );
    let rows = side_by_side(&column(&["a1"]), &column(&["i1", "i2"]));
    let shown: Vec<(String, String)> = rows.iter().map(|r| (r.art.clone(), r.info.clone())).collect();
    assert_eq!(
        shown,
        vec![("a1".to_string(), "i1".to_string()), (" ".to_string(), "i2".to_string())]
    );
    assert_eq!(side_by_side(&column(&[]), &column(&[])).len(), 0);
}
