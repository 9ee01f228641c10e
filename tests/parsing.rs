use sysmon::monitor::{MonitorError, Source};
use sysmon::parse::{
    get_core_count, get_cpu_freqs, get_cpu_times, get_distro_name, get_kernel_version,
    get_mem_info, get_misc_info, get_uptime, time_string_to_array,
};

#[test]
fn uptime_truncates_fraction() {
    assert_eq!(get_uptime("12345.67 89.01".to_string()), Some(12345));
}

#[test]
fn uptime_whole_number() {
    assert_eq!(get_uptime("42 7.5\n".to_string()), Some(42));
}

#[test]
fn uptime_leading_dot_and_trailing_dot() {
    assert_eq!(get_uptime(".75 1.0".to_string()), Some(0));
    assert_eq!(get_uptime("+9. 1.0".to_string()), Some(9));
    assert_eq!(get_uptime(". 1.0".to_string()), None);
    assert_eq!(get_uptime("1e3 1.0".to_string()), Some(1000));
}

#[test]
fn uptime_exponent_notation_is_floored_exactly() {
    assert_eq!(get_uptime("2.4e3 0".to_string()), Some(2400));
    assert_eq!(get_uptime("1.5E1 0".to_string()), Some(15));
    assert_eq!(get_uptime("12345e-2 0".to_string()), Some(123));
    assert_eq!(get_uptime("5E-1 0".to_string()), Some(0));
    assert_eq!(get_uptime("1e+3 0".to_string()), Some(1000));
    assert_eq!(get_uptime("1e19 0".to_string()), Some(10000000000000000000));
    assert_eq!(get_uptime("1e20 0".to_string()), None);
    assert_eq!(get_uptime("1e-99999999999999999999999 0".to_string()), Some(0));
    assert_eq!(get_uptime("1e99999999999999999999999 0".to_string()), None);
    assert_eq!(get_uptime("0e99999999999999999999999 0".to_string()), Some(0));
    assert_eq!(get_uptime("18446744073709551615.9 0".to_string()), Some(u64::MAX));
    assert_eq!(get_uptime("18446744073709551616 0".to_string()), None);
}

#[test]
fn uptime_malformed_exponent_fails() {
    assert_eq!(get_uptime("1e 0".to_string()), None);
    assert_eq!(get_uptime("e3 0".to_string()), None);
    assert_eq!(get_uptime("1e3.5 0".to_string()), None);
    assert_eq!(get_uptime("1e-+3 0".to_string()), None);
}

#[test]
fn uptime_signs() {
    assert_eq!(get_uptime("-0 0".to_string()), Some(0));
    assert_eq!(get_uptime("-0.0 0".to_string()), Some(0));
    assert_eq!(get_uptime("-1 0".to_string()), None);
    assert_eq!(get_uptime("-0.5 0".to_string()), None);
    assert_eq!(get_uptime("+12.9 0".to_string()), Some(12));
}

#[test]
fn mem_with_crlf_line_endings() {
    let m = get_mem_info("MemTotal: 10 kB\r\nMemFree: 1 kB\r\nMemAvailable: 4 kB\r\n".to_string()).unwrap();
    assert_eq!(m.taken, 6);
}

#[test]
fn uptime_empty_text_fails() {
    assert_eq!(get_uptime("  \n".to_string()), None);
}

#[test]
fn uptime_malformed_number_fails() {
    assert_eq!(get_uptime("12a.5 1.0".to_string()), None);
    assert_eq!(get_uptime("12.5x 1.0".to_string()), None);
}

#[test]
fn kernel_token_is_third() {
    let k = get_kernel_version("Linux version 5.15.0-generic (build@host) (gcc 11) #1 SMP".to_string());
    assert_eq!(k, Some("5.15.0-generic".to_string()));
}

#[test]
fn kernel_too_few_tokens_fails() {
    assert_eq!(get_kernel_version("Linux version".to_string()), None);
}

#[test]
fn distro_pretty_name() {
    let text = "NAME=\"Ubuntu\"\nVERSION_ID=\"22.04\"\nPRETTY_NAME=\"Ubuntu 22.04.1 LTS\"\nID=ubuntu\n";
    assert_eq!(get_distro_name(text.to_string()), Some("Ubuntu 22.04.1 LTS".to_string()));
}

#[test]
fn distro_first_matching_line_wins() {
    let text = "PRETTY_NAME=\"First\"\nPRETTY_NAME=\"Second\"\n";
    assert_eq!(get_distro_name(text.to_string()), Some("First".to_string()));
}

#[test]
fn distro_without_closing_quote_is_error() {
    let text = "PRETTY_NAME=\"Open ended\nID=x\n";
    assert_eq!(get_distro_name(text.to_string()), None);
}

#[test]
fn distro_with_crlf_line_endings() {
    let text = "NAME=\"Fedora\"\r\nPRETTY_NAME=\"Fedora Linux 39\"\r\n";
    assert_eq!(get_distro_name(text.to_string()), Some("Fedora Linux 39".to_string()));
}

#[test]
fn distro_missing_is_error_not_empty() {
    let text = "NAME=\"Ubuntu\"\nID=ubuntu\n";
    assert_eq!(get_distro_name(text.to_string()), None);
}

#[test]
fn distro_line_without_quote_is_error() {
    assert_eq!(get_distro_name("PRETTY_NAME=Plain\n".to_string()), None);
}

#[test]
fn core_count_counts_processor_lines() {
    let text = "processor\t: 0\nmodel name\t: X\ncpu MHz\t\t: 2400.000\n\nprocessor\t: 1\nmodel name\t: X\ncpu MHz\t\t: 1800.512\n\nprocessor\t: 2\n";
    assert_eq!(get_core_count(&text.to_string()), Some(3));
    assert_eq!(get_core_count(&"model name: X\n".to_string()), Some(0));
    assert_eq!(get_core_count(&" processor: 0\n".to_string()), Some(0));
}

#[test]
fn cpu_freqs_are_floored() {
    let text = "processor\t: 0\ncpu MHz\t\t: 2400.999\nprocessor\t: 1\ncpu MHz\t\t: 800.000\n";
    let f = get_cpu_freqs(&text.to_string()).unwrap();
    assert_eq!(f.freqs, vec![2400, 800]);
}

#[test]
fn cpu_freqs_in_exponent_notation() {
    let f = get_cpu_freqs(&"cpu MHz\t\t: 2e3\ncpu MHz\t\t: 1.8005E3\n".to_string()).unwrap();
    assert_eq!(f.freqs, vec![2000, 1800]);
}

#[test]
fn cpu_freqs_missing_value_fails() {
    assert!(get_cpu_freqs(&"cpu MHz :\n".to_string()).is_none());
    assert!(get_cpu_freqs(&"cpu MHz : fast\n".to_string()).is_none());
}

#[test]
fn mem_used_is_total_minus_available() {
    let text = "MemTotal:       16000 kB\nMemFree:         1000 kB\nMemAvailable:    6000 kB\nBuffers: 1 kB\n";
    let m = get_mem_info(text.to_string()).unwrap();
    assert_eq!(m.total, 16000);
    assert_eq!(m.taken, 10000);
}

#[test]
fn mem_all_available_is_nothing_taken() {
    let m = get_mem_info("MemTotal: 5 kB\nMemFree: 1 kB\nMemAvailable: 5 kB\n".to_string()).unwrap();
    assert_eq!(m.total, 5);
    assert_eq!(m.taken, 0);
}

#[test]
fn mem_more_available_than_total_fails() {
    assert!(get_mem_info("MemTotal: 5 kB\nMemFree: 1 kB\nMemAvailable: 6 kB\n".to_string()).is_none());
}

#[test]
fn mem_short_text_fails() {
    assert!(get_mem_info("MemTotal: 5 kB\nMemFree: 1 kB\n".to_string()).is_none());
    assert!(get_mem_info("MemTotal:\nMemFree: 1 kB\nMemAvailable: 1 kB\n".to_string()).is_none());
}

#[test]
fn mem_number_past_u64_fails() {
    let text = "MemTotal: 18446744073709551616 kB\nMemFree: 1 kB\nMemAvailable: 1 kB\n";
    assert!(get_mem_info(text.to_string()).is_none());
    let text = "MemTotal: 18446744073709551615 kB\nMemFree: 1 kB\nMemAvailable: 1 kB\n";
    assert_eq!(get_mem_info(text.to_string()).unwrap().taken, 18446744073709551614);
}

#[test]
fn counter_row_fields() {
    let a = time_string_to_array("cpu0 1 2 3 4 5 6 7 8 9 10".to_string()).unwrap();
    assert_eq!(a, [1, 2, 3, 4, 5, 6, 7, 8, 9, 10]);
}

#[test]
fn counter_row_extra_fields_ignored() {
    let a = time_string_to_array("cpu 1 2 3 4 5 6 7 8 9 10 11".to_string()).unwrap();
    assert_eq!(a, [1, 2, 3, 4, 5, 6, 7, 8, 9, 10]);
}

#[test]
fn counter_row_bad_extra_field_fails() {
    assert_eq!(time_string_to_array("cpu0 1 2 3 4 5 6 7 8 9 10 x".to_string()), None);
    let text = "cpu  1 1 1 1 1 1 1 1 1 1\ncpu0 1 2 3 4 5 6 7 8 9 10 x\n";
    assert!(get_cpu_times(text.to_string()).is_none());
}

#[test]
fn counter_row_too_few_fields_fails() {
    assert_eq!(time_string_to_array("cpu0 1 2 3 4 5 6 7 8 9".to_string()), None);
}

#[test]
fn counter_row_bad_number_fails() {
    assert_eq!(time_string_to_array("cpu0 1 2 3 x 5 6 7 8 9 10".to_string()), None);
    assert_eq!(time_string_to_array("cpu0 1 2 3 -4 5 6 7 8 9 10".to_string()), None);
}

#[test]
fn cpu_times_skip_first_line_and_keep_cpu_rows() {
    let text = "cpu  10 0 0 0 0 0 0 0 0 0\ncpu0 1 2 3 4 5 6 7 8 9 10\nintr 1 2 3\ncpu1 11 12 13 14 15 16 17 18 19 20\nctxt 5\n";
    let t = get_cpu_times(text.to_string()).unwrap();
    assert_eq!(t.times.len(), 2);
    assert_eq!(t.times[0].time, [1, 2, 3, 4, 5, 6, 7, 8, 9, 10]);
    assert_eq!(t.times[1].time, [11, 12, 13, 14, 15, 16, 17, 18, 19, 20]);
}

#[test]
fn cpu_times_bad_row_fails() {
    let text = "cpu  1 1 1 1 1 1 1 1 1 1\ncpu0 1 2 3\n";
    assert!(get_cpu_times(text.to_string()).is_none());
}

#[test]
fn misc_info_collects_three_fields() {
    let m = get_misc_info(
        "100.99 5.0".to_string(),
        "Linux version 6.1.0 (x)".to_string(),
        "PRETTY_NAME=\"Debian GNU/Linux 12\"\n".to_string(),
    )
    .unwrap();
    assert_eq!(m.uptime, 100);
    assert_eq!(m.kernel, "6.1.0");
    assert_eq!(m.distro, "Debian GNU/Linux 12");
}

#[test]
fn misc_info_reports_first_failure() {
    let r = get_misc_info("".to_string(), "".to_string(), "".to_string());
    assert_eq!(r.err(), Some(MonitorError::Parse(Source::Uptime)));
    let r = get_misc_info("1 1".to_string(), "Linux".to_string(), "".to_string());
    assert_eq!(r.err(), Some(MonitorError::Parse(Source::Kernel)));
    let r = get_misc_info("1 1".to_string(), "Linux version 6".to_string(), "ID=x\n".to_string());
    assert_eq!(r.err(), Some(MonitorError::Parse(Source::Distro)));
}
