use shr_daw::procfs::{cpu_times, resident_kib};

#[test]
fn cpu_times_read_the_fields_after_the_command_name() {
    let stat = "1234 (jackd) S 1 1234 1234 0 -1 4194560 1201 0 0 0 57 31 0 0 -2 0 5 0 9876 12345678 2048";
    assert_eq!(cpu_times(stat), Some((57, 31)));
}

#[test]
fn cpu_times_skip_spaces_and_parentheses_inside_the_command_name() {
    let stat = "77 (a (b) c) R 1 77 77 0 -1 0 0 0 0 0 9 4 0 0 20 0 1 0 5";
    assert_eq!(cpu_times(stat), Some((9, 4)));
}

#[test]
fn cpu_times_refuse_short_or_malformed_lines() {
    assert_eq!(cpu_times(""), None);
    assert_eq!(cpu_times("12 no command"), None);
    assert_eq!(cpu_times("12 (x)"), None);
    assert_eq!(cpu_times("12 (x) S 1 2 3"), None);
    assert_eq!(cpu_times("12 (x) S 1 1 1 0 -1 0 0 0 0 0 x 4"), None);
    assert_eq!(cpu_times("12 (x)\u{e9}S 1 1 1 0 -1 0 0 0 0 0 3 4"), None);
    assert_eq!(cpu_times("12 (x) S 1 1 1 0 -1 0 0 0 0 0 18446744073709551616 4"), None);
}

#[test]
fn resident_memory_is_the_first_word_of_the_first_vmrss_line() {
    let status = "Name:\tjackd\nVmPeak:\t  99000 kB\nVmRSS:\t   51234 kB\nVmRSS:\t 1 kB\n";
    assert_eq!(resident_kib(status), Some(51234));
    assert_eq!(resident_kib("VmRSS: 7 kB"), Some(7));
    assert_eq!(resident_kib("VmRSS:\t12\r\nThreads: 3\n"), Some(12));
}

#[test]
fn resident_memory_needs_a_line_that_starts_with_the_label() {
    assert_eq!(resident_kib(""), None);
    assert_eq!(resident_kib("Name: x\n  VmRSS: 5 kB\n"), None);
    assert_eq!(resident_kib("XVmRSS: 5 kB"), None);
    assert_eq!(resident_kib("VmRSS:\nVmRSS: 5 kB"), None);
    assert_eq!(resident_kib("VmRSS: many kB"), None);
}
