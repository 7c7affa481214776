use rustlibc::arith::wrap_to_i64;
use rustlibc::errno::{EINVAL, ENOSYS};
use rustlibc::locale::setlocale;
use rustlibc::math::{copysign_bits, copysignf_bits, fabs_bits, fabsf_bits, isinf_bits, isnan_bits};
use rustlibc::message::{append_bytes, append_c_str, assert_fail_message, render_decimal};
use rustlibc::platform::syscall_ret;
use rustlibc::poll::ppoll_timeout;
use rustlibc::pthread::{
    pthread_create, pthread_join, pthread_mutex_destroy, pthread_mutex_init, pthread_mutex_lock,
    pthread_mutex_t, pthread_mutex_trylock, pthread_mutex_unlock, pthread_once, pthread_once_t,
    pthread_self,
};
use rustlibc::signal::signal;
use rustlibc::sys::mman::{mmap_result, MAP_FAILED};
use rustlibc::time::{gmtime_r, time_result};
use rustlibc::unistd::{sleep_interval, usleep_interval};
use rustlibc::wchar::{mbrtowc, wcscmp, wcscpy, wcslen};

#[test]
fn syscall_results() {
    assert_eq!(syscall_ret(5), Ok(5));
    assert_eq!(syscall_ret(usize::MAX), Err(1));
    assert_eq!(syscall_ret((-(EINVAL as isize)) as usize), Err(EINVAL));
    assert_eq!(syscall_ret(usize::MAX - 4094), Err(4095));
    assert_eq!(syscall_ret(usize::MAX - 4095), Ok((usize::MAX - 4095) as i64));
}

#[test]
fn mmap_results() {
    assert_eq!(mmap_result(-12), MAP_FAILED);
    assert_eq!(mmap_result(0x7000_0000), 0x7000_0000);
}

#[test]
fn float_sign_bits() {
    assert_eq!(f64::from_bits(fabs_bits((-3.5f64).to_bits())), 3.5);
    assert_eq!(f32::from_bits(fabsf_bits((-1.25f32).to_bits())), 1.25);
    assert_eq!(f64::from_bits(copysign_bits(2.0f64.to_bits(), (-1.0f64).to_bits())), -2.0);
    assert_eq!(f32::from_bits(copysignf_bits((-2.0f32).to_bits(), 1.0f32.to_bits())), 2.0);
}

#[test]
fn float_classes() {
    assert_eq!(isnan_bits(f64::NAN.to_bits()), 1);
    assert_eq!(isnan_bits(f64::INFINITY.to_bits()), 0);
    assert_eq!(isnan_bits(1.0f64.to_bits()), 0);
    assert_eq!(isinf_bits(f64::INFINITY.to_bits()), 1);
    assert_eq!(isinf_bits(f64::NEG_INFINITY.to_bits()), -1);
    assert_eq!(isinf_bits(f64::NAN.to_bits()), 0);
    assert_eq!(isinf_bits(f64::MAX.to_bits()), 0);
}

#[test]
fn pthread_single_threaded() {
    assert_eq!(pthread_create(), ENOSYS);
    assert_eq!(pthread_join(1), ENOSYS);
    assert_eq!(pthread_self(), 1);
    let mut m = pthread_mutex_t { state: 0 };
    assert_eq!(pthread_mutex_init(&mut m, None), 0);
    assert_eq!(pthread_mutex_lock(&mut m), 0);
    assert_eq!(pthread_mutex_trylock(&mut m), 0);
    assert_eq!(pthread_mutex_unlock(&mut m), 0);
    assert_eq!(pthread_mutex_destroy(&mut m), 0);
    assert_eq!(m.state, 0);
}

#[test]
fn once_runs_once() {
    let mut once = pthread_once_t { done: 0 };
    assert_eq!(pthread_once(Some(&mut once)), (0, true));
    assert_eq!(pthread_once(Some(&mut once)), (0, false));
    assert_eq!(pthread_once(Some(&mut once)), (0, false));
    let mut used = pthread_once_t { done: 7 };
    assert_eq!(pthread_once(Some(&mut used)), (0, false));
    assert_eq!(used.done, 7);
    assert_eq!(pthread_once(None), (EINVAL, false));
}

#[test]
fn time_decisions() {
    assert_eq!(time_result(0, 1_700_000_000), 1_700_000_000);
    assert_eq!(time_result(-1, 1_700_000_000), -1);
    let (t, e) = gmtime_r(12345);
    assert_eq!(e, ENOSYS);
    assert_eq!(t.tm_year, 0);
    assert_eq!(t.tm_zone, 0);
}

#[test]
fn sleep_intervals() {
    let t = usleep_interval(2_500_000);
    assert_eq!((t.tv_sec, t.tv_nsec), (2, 500_000_000));
    let z = usleep_interval(999);
    assert_eq!((z.tv_sec, z.tv_nsec), (0, 999_000));
    let s = sleep_interval(7);
    assert_eq!((s.tv_sec, s.tv_nsec), (7, 0));
}

#[test]
fn poll_timeouts() {
    assert!(ppoll_timeout(-1).is_none());
    let t = ppoll_timeout(1500).unwrap();
    assert_eq!((t.tv_sec, t.tv_nsec), (1, 500_000_000));
    let z = ppoll_timeout(0).unwrap();
    assert_eq!((z.tv_sec, z.tv_nsec), (0, 0));
}

#[test]
fn wide_strings() {
    let a = [104, 105, 0];
    let b = [104, 106, 0];
    assert_eq!(wcslen(&a), 2);
    assert_eq!(wcscmp(&a, &b), -1);
    assert_eq!(wcscmp(&a, &a), 0);
    assert_eq!(wcscmp(&[i32::MIN, 0], &[1, 0]), i32::MIN.wrapping_sub(1));
    let mut d = [9; 5];
    wcscpy(&mut d, &a);
    assert_eq!(d, [104, 105, 0, 9, 9]);
    assert_eq!(mbrtowc(b"a", 1), (usize::MAX, ENOSYS));
}

#[test]
fn unprovided_calls_report_errors() {
    assert_eq!(signal(2, 0), (usize::MAX, ENOSYS));
    assert_eq!(setlocale(0, None), "C\0");
    assert_eq!(setlocale(6, Some(b"fr_FR\0")), "C\0");
}

#[test]
fn messages() {
    assert_eq!(render_decimal(0), b"0".to_vec());
    assert_eq!(render_decimal(4_294_967_295), b"4294967295".to_vec());
    let mut out = b"x".to_vec();
    append_bytes(&mut out, b"yz");
    append_c_str(&mut out, b"ab\0cd");
    assert_eq!(out, b"xyzab".to_vec());
    assert_eq!(
        assert_fail_message(Some(b"x > 0\0"), Some(b"main.c\0"), 12, Some(b"main\0")),
        b"main.c:12: main: Assertion `x > 0` failed.\n".to_vec()
    );
    assert_eq!(
        assert_fail_message(None, None, -1, None),
        b"4294967295: Assertion `` failed.\n".to_vec()
    );
    assert_eq!(
        assert_fail_message(Some(b"x > 0\0"), Some(b"a.c\0"), 7, Some(b"main\0")),
        b"a.c:7: main: Assertion `x > 0` failed.\n".to_vec()
    );
}

#[test]
fn wrapping_reduction() {
    assert_eq!(wrap_to_i64(i64::MAX as i128 + 1), i64::MIN);
    assert_eq!(wrap_to_i64(-5), -5);
}
