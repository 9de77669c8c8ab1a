use hyperdrive_tracker::scheduler::{
    Page, PageScheduler, Phase, SchedulerAction, SchedulerError, SchedulerEvent,
};

/// Runs a scheduler to its end and returns the pages it had processed.
fn pages_of(resume: u64, target: u64, page_size: u64) -> Vec<(u64, u64)> {
    let mut scheduler = PageScheduler::new(target, page_size).unwrap();
    let mut pages = Vec::new();
    let mut in_flight = None;
    loop {
        match scheduler.action() {
            SchedulerAction::LoadCheckpoint => scheduler.step(SchedulerEvent::Resumed(resume)),
            SchedulerAction::ProcessPage { from_block, to_block } => {
                in_flight = Some((from_block, to_block + 1));
                scheduler.step(SchedulerEvent::PageProcessed);
            }
            SchedulerAction::WriteCheckpoint { end_block } => {
                let page = in_flight.take().unwrap();
                assert_eq!(page.1, end_block);
                pages.push(page);
                scheduler.step(SchedulerEvent::CheckpointWritten);
            }
            SchedulerAction::Finish => return pages,
            SchedulerAction::Abort => panic!("aborted"),
        }
    }
}

#[test]
fn pages_tile_the_range() {
    assert_eq!(pages_of(100, 350, 100), vec![(100, 200), (200, 300), (300, 350)]);
}

#[test]
fn a_whole_number_of_pages_ends_at_the_target() {
    assert_eq!(pages_of(0, 30, 10), vec![(0, 10), (10, 20), (20, 30)]);
}

#[test]
fn a_page_larger_than_the_range_is_cut_off() {
    assert_eq!(pages_of(5, 8, 1000), vec![(5, 8)]);
    assert_eq!(pages_of(5, 8, u64::MAX), vec![(5, 8)]);
}

#[test]
fn pages_of_one_block() {
    assert_eq!(pages_of(5, 8, 1), vec![(5, 6), (6, 7), (7, 8)]);
}

#[test]
fn nothing_to_do_at_or_past_the_target() {
    assert_eq!(pages_of(8, 8, 10), Vec::new());
    assert_eq!(pages_of(9, 8, 10), Vec::new());
}

#[test]
fn the_end_of_the_block_numbers_is_reached_without_overflow() {
    assert_eq!(
        pages_of(u64::MAX - 5, u64::MAX, 4),
        vec![(u64::MAX - 5, u64::MAX - 1), (u64::MAX - 1, u64::MAX)]
    );
}

#[test]
fn pages_cover_every_block_once_for_many_sizes() {
    for size in 1..40u64 {
        let pages = pages_of(17, 131, size);
        let mut next = 17;
        for (start, end) in &pages {
            assert_eq!(*start, next);
            assert!(start < end && end - start <= size);
            next = *end;
        }
        assert_eq!(next, 131);
    }
}

#[test]
fn a_resumed_run_goes_through_the_pages_that_were_left() {
    let whole = pages_of(100, 1000, 70);
    for stop in 0..whole.len() {
        let resumed = pages_of(whole[stop].1, 1000, 70);
        assert_eq!(resumed, whole[stop + 1..].to_vec());
    }
}

#[test]
fn a_page_size_of_zero_is_refused() {
    assert_eq!(PageScheduler::new(100, 0), Err(SchedulerError::ZeroPageSize));
}

#[test]
fn the_run_starts_by_resuming() {
    let scheduler = PageScheduler::new(100, 10).unwrap();
    assert_eq!(scheduler.phase, Phase::Resuming);
    assert_eq!(scheduler.action(), SchedulerAction::LoadCheckpoint);
}

#[test]
fn a_failed_page_is_not_committed() {
    let mut scheduler = PageScheduler::new(100, 10).unwrap();
    scheduler.step(SchedulerEvent::Resumed(0));
    assert_eq!(scheduler.action(), SchedulerAction::ProcessPage { from_block: 0, to_block: 9 });
    scheduler.step(SchedulerEvent::PageFailed);
    assert_eq!(scheduler.phase, Phase::Aborted);
    assert_eq!(scheduler.action(), SchedulerAction::Abort);
    scheduler.step(SchedulerEvent::CheckpointWritten);
    assert_eq!(scheduler.phase, Phase::Aborted);
}

#[test]
fn a_failed_checkpoint_aborts_the_run() {
    let mut scheduler = PageScheduler::new(100, 10).unwrap();
    scheduler.step(SchedulerEvent::Resumed(40));
    scheduler.step(SchedulerEvent::PageProcessed);
    assert_eq!(scheduler.phase, Phase::Checkpointing(Page { start: 40, end: 50 }));
    assert_eq!(scheduler.action(), SchedulerAction::WriteCheckpoint { end_block: 50 });
    scheduler.step(SchedulerEvent::CheckpointFailed);
    assert_eq!(scheduler.action(), SchedulerAction::Abort);
}

#[test]
fn events_out_of_turn_change_nothing() {
    let mut scheduler = PageScheduler::new(100, 10).unwrap();
    scheduler.step(SchedulerEvent::PageProcessed);
    scheduler.step(SchedulerEvent::CheckpointWritten);
    scheduler.step(SchedulerEvent::PageFailed);
    assert_eq!(scheduler.phase, Phase::Resuming);
    scheduler.step(SchedulerEvent::Resumed(95));
    scheduler.step(SchedulerEvent::Resumed(0));
    scheduler.step(SchedulerEvent::CheckpointWritten);
    assert_eq!(scheduler.phase, Phase::ProcessingPage(Page { start: 95, end: 100 }));
    scheduler.step(SchedulerEvent::PageProcessed);
    scheduler.step(SchedulerEvent::PageProcessed);
    scheduler.step(SchedulerEvent::CheckpointWritten);
    assert_eq!(scheduler.phase, Phase::Done);
    scheduler.step(SchedulerEvent::Resumed(0));
    assert_eq!(scheduler.action(), SchedulerAction::Finish);
}
