use os::gpu::{bmp_fits, cursor_image, cursor_image_from_bmp, CursorState};
use os::input::{cursor_move_fits, handle_irq, InputEvent};
use os::mutex::Mutex;
use os::syscall::{change_brk, sys_get_time, sys_getpid, sys_sbrk};
use os::timer::{get_time_ms, set_next_trigger};
use os::user::{sleep, wait, waitpid};

const FB_LEN: usize = 1280 * 800 * 4;

fn solid_cursor(alpha: u8) -> Vec<u8> {
    let mut v = Vec::new();
    for i in 0..64 * 64 {
        v.extend_from_slice(&[(i % 251) as u8, 1, 2, alpha]);
    }
    v
}

#[test]
fn cursor_image_adds_alpha() {
    let raw = [255u8, 255, 255, 1, 2, 3, 9];
    assert_eq!(cursor_image(&raw), vec![255, 255, 255, 0, 1, 2, 3, 0xff, 9, 0xff]);
    assert!(cursor_image(&[]).is_empty());
}

fn tiny_bmp() -> Vec<u8> {
    // A BMP file of 2 by 1 pixels of 24 bits: one white, one black.
    let mut f = Vec::new();
    f.extend_from_slice(b"BM");
    f.extend_from_slice(&62u32.to_le_bytes());
    f.extend_from_slice(&[0, 0, 0, 0]);
    f.extend_from_slice(&54u32.to_le_bytes());
    f.extend_from_slice(&40u32.to_le_bytes());
    f.extend_from_slice(&2i32.to_le_bytes());
    f.extend_from_slice(&1i32.to_le_bytes());
    f.extend_from_slice(&1u16.to_le_bytes());
    f.extend_from_slice(&24u16.to_le_bytes());
    f.extend_from_slice(&0u32.to_le_bytes());
    f.extend_from_slice(&8u32.to_le_bytes());
    f.extend_from_slice(&[0; 16]);
    f.extend_from_slice(&[255, 255, 255, 0, 0, 0, 0, 0]);
    f
}

#[test]
fn bmp_files_that_would_make_the_decoder_panic_are_recognised() {
    assert!(bmp_fits(&tiny_bmp()));
    assert!(bmp_fits(b"not a bmp at all"));
    let mut far = tiny_bmp();
    far[10] = 0xff;
    far[11] = 0xff;
    assert!(!bmp_fits(&far));
    let mut tall = tiny_bmp();
    tall[22..26].copy_from_slice(&0x8000_0000u32.to_le_bytes());
    assert!(!bmp_fits(&tall));
    let mut short = tiny_bmp();
    short.truncate(40);
    short[10] = 0xff;
    assert!(bmp_fits(&short));
}

#[test]
fn cursor_image_with_a_partial_last_pixel_draws_the_whole_pixels() {
    let mut c = CursorState::new(vec![9, 9, 9, 0xff, 7, 7], true);
    let mut fb = vec![1u8; FB_LEN];
    c.draw_soft_cursor(&mut fb);
    assert_eq!(&fb[0..8], &[9, 9, 9, 0xff, 1, 1, 1, 1]);
    c.recover_origin_cursor(&mut fb);
    assert!(fb.iter().all(|b| *b == 1));
}

#[test]
fn bmp_files_tinybmp_rejects_give_no_cursor() {
    let mut sixteen = tiny_bmp();
    sixteen[28] = 16;
    assert!(cursor_image_from_bmp(&sixteen).is_none());
    let mut compressed = tiny_bmp();
    compressed[30] = 1;
    assert!(cursor_image_from_bmp(&compressed).is_none());
    let mut palette = tiny_bmp();
    palette[28] = 8;
    assert!(cursor_image_from_bmp(&palette).is_none());
    let mut thirty_two = tiny_bmp();
    thirty_two[28] = 32;
    assert!(cursor_image_from_bmp(&thirty_two).is_some());
    let mut huge_table = tiny_bmp();
    huge_table[49] = 0x40;
    assert!(!bmp_fits(&huge_table));
}

#[test]
fn cursor_image_from_bmp_file() {
    let img = cursor_image_from_bmp(&tiny_bmp()).unwrap();
    assert_eq!(img, vec![255, 255, 255, 0, 0, 0, 0, 0xff, 0, 0, 0xff]);
    assert!(cursor_image_from_bmp(b"not a bmp at all").is_none());
}

#[test]
fn draw_soft_cursor_draws_opaque_pixels_and_saves_the_screen() {
    let mut c = CursorState::new(solid_cursor(0xff), true);
    let mut fb = vec![7u8; FB_LEN];
    c.draw_soft_cursor(&mut fb);
    assert_eq!(&fb[0..4], &[0, 1, 2, 0xff]);
    let row1 = 1280 * 4;
    assert_eq!(&fb[row1 + 4..row1 + 8], &[(65 % 251) as u8, 1, 2, 0xff]);
    // Pixel (64, 0) is outside the cursor.
    assert_eq!(&fb[64 * 4..64 * 4 + 4], &[7, 7, 7, 7]);
    assert_eq!(&fb[64 * row1..64 * row1 + 4], &[7, 7, 7, 7]);
    c.recover_origin_cursor(&mut fb);
    assert!(fb.iter().all(|b| *b == 7));
}

#[test]
fn transparent_cursor_pixels_leave_the_screen() {
    let mut c = CursorState::new(solid_cursor(0), true);
    let mut fb = vec![3u8; FB_LEN];
    c.draw_soft_cursor(&mut fb);
    assert!(fb.iter().all(|b| *b == 3));
}

#[test]
fn cursor_is_clipped_at_the_screen_edge() {
    let mut c = CursorState::new(solid_cursor(0xff), true);
    let mut fb = vec![0u8; FB_LEN];
    assert!(!c.update_cursor(&mut fb, 1279, 799));
    assert_eq!(c.get_cursor_pos(), (1279, 799));
    // The last pixel of the frame buffer is never drawn.
    assert!(fb.iter().all(|b| *b == 0));
    assert!(!c.update_cursor(&mut fb, 1278, 799));
    let k = (799 * 1280 + 1278) * 4;
    assert_eq!(&fb[k..k + 4], &[0, 1, 2, 0xff]);
    assert_eq!(&fb[k + 4..k + 8], &[0, 0, 0, 0]);
}

#[test]
fn moving_the_cursor_restores_where_it_was() {
    let mut c = CursorState::new(solid_cursor(0xff), true);
    let mut fb = vec![5u8; FB_LEN];
    c.draw_soft_cursor(&mut fb);
    assert!(!c.update_cursor(&mut fb, 200, 100));
    assert_eq!(&fb[0..4], &[5, 5, 5, 5]);
    let k = (100 * 1280 + 200) * 4;
    assert_eq!(&fb[k..k + 4], &[0, 1, 2, 0xff]);
}

#[test]
fn hardware_cursor_is_moved_by_the_device() {
    let mut c = CursorState::new(solid_cursor(0xff), false);
    let mut fb = vec![5u8; FB_LEN];
    assert!(c.update_cursor(&mut fb, 10, 10));
    c.draw_soft_cursor(&mut fb);
    assert!(fb.iter().all(|b| *b == 5));
    assert_eq!(c.get_cursor_pos(), (0, 0));
}

#[test]
fn input_events_are_packed() {
    let evs = [InputEvent { event_type: 1, code: 0x110, value: 1 }];
    let out = handle_irq(&evs, (5, 5));
    assert_eq!(out.events, vec![(1u64 << 48) | (0x110u64 << 32) | 1]);
    assert_eq!(out.cursor, None);
}

#[test]
fn mouse_motion_moves_the_cursor_by_the_last_delta() {
    let evs = [
        InputEvent { event_type: 2, code: 0, value: 10 },
        InputEvent { event_type: 2, code: 0, value: 20 },
        InputEvent { event_type: 2, code: 1, value: (-3i32) as u32 },
    ];
    let out = handle_irq(&evs, (100, 50));
    assert_eq!(out.cursor, Some((120, 47)));
    assert_eq!(out.events.len(), 3);
}

#[test]
fn mouse_motion_keeps_the_cursor_on_screen() {
    let evs = [InputEvent { event_type: 2, code: 0, value: (-500i32) as u32 }, InputEvent { event_type: 2, code: 1, value: 5000 }];
    assert_eq!(handle_irq(&evs, (100, 50)).cursor, Some((0, 799)));
    let evs = [InputEvent { event_type: 2, code: 0, value: 5000 }];
    assert_eq!(handle_irq(&evs, (100, 50)).cursor, Some((1279, 50)));
}

#[test]
fn absolute_axis_events_do_not_move_the_cursor() {
    let evs = [InputEvent { event_type: 3, code: 0, value: 10 }, InputEvent { event_type: 3, code: 1, value: 10 }];
    let out = handle_irq(&evs, (100, 50));
    assert_eq!(out.cursor, None);
    assert_eq!(out.events.len(), 2);
}

#[test]
fn cursor_move_fits_detects_overflow() {
    let evs = [InputEvent { event_type: 2, code: 0, value: i32::MAX as u32 }];
    assert!(cursor_move_fits(&evs, (0, 0)));
    assert!(!cursor_move_fits(&evs, (1, 0)));
    let evs = [InputEvent { event_type: 2, code: 1, value: i32::MIN as u32 }];
    assert!(cursor_move_fits(&evs, (0, 0)));
    assert!(!cursor_move_fits(&evs, (0, u32::MAX)));
}

#[test]
fn program_break_moves_within_the_heap() {
    assert_eq!(change_brk(0x1000, 0x1000, 0x20), Some(0x1020));
    assert_eq!(change_brk(0x1000, 0x1020, -0x20), Some(0x1000));
    assert_eq!(change_brk(0x1000, 0x1020, -0x21), None);
}

#[test]
fn timer_arithmetic() {
    assert_eq!(set_next_trigger(1000), 1000 + 125000);
    assert_eq!(get_time_ms(12500 * 7 + 3), 7);
    assert_eq!(sys_get_time(12500 * 42), 42);
}

#[test]
fn process_system_call_answers() {
    assert_eq!(sys_sbrk(Some(0x4000)), 0x4000);
    assert_eq!(sys_sbrk(None), -1);
    assert_eq!(sys_getpid(12), 12);
}

#[test]
fn user_waits_retry_while_the_child_runs() {
    assert_eq!(wait(-2), None);
    assert_eq!(wait(-1), Some(-1));
    assert_eq!(wait(5), Some(5));
    assert_eq!(waitpid(-2), None);
    assert_eq!(waitpid(7), Some(7));
}

#[test]
fn user_sleep_waits_until_the_deadline() {
    assert!(sleep(100, 50, 149));
    assert!(!sleep(100, 50, 150));
    assert!(!sleep(100, 0, 100));
}

#[test]
fn mutex_is_taken_once_until_unlocked() {
    let m = Mutex::new(5i32);
    let g = m.try_lock().unwrap();
    assert_eq!(*g.get(), 5);
    assert!(m.try_lock().is_none());
    m.unlock();
    assert!(m.try_lock().is_some());
}
