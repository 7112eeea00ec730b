use splinch::{erase_schedule, EraseStep, CHUNK_SIZE};

#[test]
fn schedule_shape_for_small_file() {
    let s = erase_schedule(10, 2);
    assert_eq!(
        s,
        vec![
            EraseStep::Overwrite(10),
            EraseStep::Sync,
            EraseStep::Overwrite(10),
            EraseStep::Sync,
            EraseStep::Remove,
        ]
    );
}

#[test]
fn schedule_truncates_last_chunk() {
    let s = erase_schedule(CHUNK_SIZE as u64 + 1, 1);
    assert_eq!(
        s,
        vec![
            EraseStep::Overwrite(CHUNK_SIZE as u64),
            EraseStep::Overwrite(1),
            EraseStep::Sync,
            EraseStep::Remove,
        ]
    );
}

#[test]
fn schedule_with_zero_passes_only_removes() {
    assert_eq!(erase_schedule(100, 0), vec![EraseStep::Remove]);
}

#[test]
fn schedule_for_empty_file_still_syncs_each_pass() {
    assert_eq!(
        erase_schedule(0, 3),
        vec![
            EraseStep::Sync,
            EraseStep::Sync,
            EraseStep::Sync,
            EraseStep::Remove,
        ]
    );
}

#[test]
fn three_passes_give_three_full_overwrite_and_sync_cycles() {
    let len = 150000u64;
    let schedule = erase_schedule(len, 3);
    let mut syncs = 0u32;
    let mut written_since_sync = 0u64;
    let mut removed = false;
    for step in &schedule {
        assert!(!removed, "no step may follow the removal");
        match step {
            EraseStep::Overwrite(w) => {
                assert!(*w >= 1 && *w <= CHUNK_SIZE as u64);
                written_since_sync += *w;
            }
            EraseStep::Sync => {
                assert_eq!(written_since_sync, len);
                written_since_sync = 0;
                syncs += 1;
            }
            EraseStep::Remove => {
                removed = true;
            }
        }
    }
    assert!(removed);
    assert_eq!(syncs, 3);
    assert_eq!(written_since_sync, 0);
}
