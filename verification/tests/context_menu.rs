use std::cell::RefCell;
use std::io;
use tamp_lib::context_menu::{
    command_value, register_step, register_with, unregister_with, verb_key, RegistryOp, EXTS,
};

#[test]
fn verb_key_is_per_extension_under_system_file_associations() {
    assert_eq!(
        verb_key(".mp4"),
        "Software\\Classes\\SystemFileAssociations\\.mp4\\shell\\tamp.compress"
    );
}

#[test]
fn command_quotes_exe_and_passes_percent_one() {
    assert_eq!(
        command_value("C:\\Program Files\\tamp\\tamp.exe"),
        "\"C:\\Program Files\\tamp\\tamp.exe\" \"%1\""
    );
}

#[test]
fn covers_the_six_video_extensions() {
    assert_eq!(EXTS.len(), 6);
    assert!(EXTS.contains(&".mp4") && EXTS.contains(&".mov"));
}

fn not_found() -> io::Error {
    io::Error::new(io::ErrorKind::NotFound, "absent")
}

fn denied() -> io::Error {
    io::Error::new(io::ErrorKind::PermissionDenied, "locked key")
}

#[test]
fn register_rolls_back_writes_when_a_later_extension_fails() {
    let fail_on = EXTS[2];
    let written = RefCell::new(Vec::<String>::new());
    let deleted = RefCell::new(Vec::<String>::new());

    let res = register_with(
        |ext: &str| {
            if ext == fail_on {
                return Err(denied());
            }
            written.borrow_mut().push(ext.to_string());
            Ok(())
        },
        |ext: &str| {
            deleted.borrow_mut().push(ext.to_string());
            Ok(())
        },
    );

    assert!(res.is_err(), "a mid-loop write failure must surface as Err");
    assert_eq!(
        *written.borrow(),
        vec![EXTS[0].to_string(), EXTS[1].to_string()]
    );
    assert_eq!(
        *deleted.borrow(),
        vec![EXTS[0].to_string(), EXTS[1].to_string()]
    );
}

#[test]
fn register_first_extension_failure_deletes_nothing() {
    let deleted = RefCell::new(Vec::<String>::new());
    let res = register_with(
        |_ext: &str| Err(denied()),
        |ext: &str| {
            deleted.borrow_mut().push(ext.to_string());
            Ok(())
        },
    );
    assert!(res.is_err());
    assert!(
        deleted.borrow().is_empty(),
        "nothing was written, so nothing is rolled back"
    );
}

#[test]
fn register_all_succeed_writes_six_rolls_back_none() {
    let written = RefCell::new(Vec::<String>::new());
    let deleted = RefCell::new(Vec::<String>::new());
    let res = register_with(
        |ext: &str| {
            written.borrow_mut().push(ext.to_string());
            Ok(())
        },
        |ext: &str| {
            deleted.borrow_mut().push(ext.to_string());
            Ok(())
        },
    );
    assert!(res.is_ok());
    assert_eq!(written.borrow().len(), EXTS.len());
    assert!(deleted.borrow().is_empty());
}

#[test]
fn register_reports_the_write_error_even_when_a_rollback_delete_fails() {
    let res = register_with(
        |ext: &str| {
            if ext == EXTS[1] {
                Err(denied())
            } else {
                Ok(())
            }
        },
        |_ext: &str| Err(not_found()),
    );
    assert_eq!(res.unwrap_err().kind(), io::ErrorKind::PermissionDenied);
}

#[test]
fn unregister_attempts_all_and_reports_a_failure() {
    let fail_on = EXTS[1];
    let attempted = RefCell::new(Vec::<String>::new());
    let res = unregister_with(|ext: &str| {
        attempted.borrow_mut().push(ext.to_string());
        if ext == fail_on {
            Err(denied())
        } else {
            Ok(())
        }
    });
    assert!(res.is_err(), "a delete failure must be reported");
    assert_eq!(
        attempted.borrow().len(),
        EXTS.len(),
        "every extension is attempted despite the mid-loop failure"
    );
}

#[test]
fn unregister_reports_the_first_of_several_failures() {
    let res = unregister_with(|ext: &str| {
        if ext == EXTS[1] {
            Err(denied())
        } else if ext == EXTS[4] {
            Err(not_found())
        } else {
            Ok(())
        }
    });
    assert_eq!(res.unwrap_err().kind(), io::ErrorKind::PermissionDenied);
}

#[test]
fn unregister_all_clean_is_ok() {
    let res = unregister_with(|_ext: &str| Ok(()));
    assert!(res.is_ok());
}

#[test]
fn unregister_treats_handled_absent_keys_as_ok() {
    let res = unregister_with(|ext: &str| {
        if ext == EXTS[0] {
            let _ = not_found();
            Ok(())
        } else {
            Ok(())
        }
    });
    assert!(res.is_ok());
}

#[test]
fn registration_steps_write_in_order_then_stop() {
    assert_eq!(register_step(&vec![]), RegistryOp::Write(0));
    assert_eq!(register_step(&vec![true, true]), RegistryOp::Write(2));
    assert_eq!(register_step(&vec![true; 6]), RegistryOp::Finish);
}

#[test]
fn registration_steps_roll_back_after_a_failed_write() {
    // The write of the third extension failed: delete the first two, in
    // order, whatever those deletes return, then stop.
    assert_eq!(register_step(&vec![true, true, false]), RegistryOp::Delete(0));
    assert_eq!(register_step(&vec![true, true, false, false]), RegistryOp::Delete(1));
    assert_eq!(register_step(&vec![true, true, false, false, true]), RegistryOp::Finish);
    // A failure on the very first write leaves nothing to undo.
    assert_eq!(register_step(&vec![false]), RegistryOp::Finish);
}
