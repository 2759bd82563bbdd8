use ncspot::queue::{PlayerStatus, Queue, QueueEffect, QueueEvent, QueueState, RepeatSetting};

fn make_track(id: u32) -> String {
    format!("id_{id}")
}

fn tracks(ids: &[u32]) -> Vec<String> {
    ids.iter().map(|&i| make_track(i)).collect()
}

fn make_queue(tracks: Vec<String>, current: Option<usize>) -> Queue<String> {
    Queue::new(
        QueueState { queue: tracks, current_track: current, random_order: None },
        RepeatSetting::Off,
        false,
    )
}

fn make_shuffled_queue(tracks: Vec<String>, current: Option<usize>, order: Vec<usize>) -> Queue<String> {
    Queue::new(
        QueueState { queue: tracks, current_track: current, random_order: Some(order) },
        RepeatSetting::Off,
        true,
    )
}

fn all_playable(q: &Queue<String>) -> Vec<bool> {
    vec![true; q.len()]
}

fn remove(q: &mut Queue<String>, index: usize) {
    let playable = all_playable(q);
    q.remove(index, &playable);
}

// --- next_index / previous_index ---

#[test]
fn test_next_index_basic() {
    let q = make_queue(tracks(&[0, 1, 2]), Some(0));
    assert_eq!(q.next_index(), Some(1));
}

#[test]
fn test_next_index_at_end_returns_none() {
    let q = make_queue(tracks(&[0, 1, 2]), Some(2));
    assert_eq!(q.next_index(), None);
}

#[test]
fn test_next_index_no_current_returns_none() {
    let q = make_queue(tracks(&[0, 1]), None);
    assert_eq!(q.next_index(), None);
}

#[test]
fn test_previous_index_basic() {
    let q = make_queue(tracks(&[0, 1, 2]), Some(2));
    assert_eq!(q.previous_index(), Some(1));
}

#[test]
fn test_previous_index_at_start_returns_none() {
    let q = make_queue(tracks(&[0, 1]), Some(0));
    assert_eq!(q.previous_index(), None);
}

#[test]
fn test_previous_index_no_current_returns_none() {
    let q = make_queue(tracks(&[0]), None);
    assert_eq!(q.previous_index(), None);
}

#[test]
fn test_next_index_respects_random_order() {
    // Position of 2 in the order is 0; order[1] = 0.
    let q = make_shuffled_queue(tracks(&[0, 1, 2, 3]), Some(2), vec![2, 0, 3, 1]);
    assert_eq!(q.next_index(), Some(0));
}

#[test]
fn test_previous_index_respects_random_order() {
    // Position of 0 in the order is 1; order[0] = 2.
    let q = make_shuffled_queue(tracks(&[0, 1, 2, 3]), Some(0), vec![2, 0, 3, 1]);
    assert_eq!(q.previous_index(), Some(2));
}

#[test]
fn test_next_index_at_end_of_shuffle_order_returns_none() {
    // Position of 1 in the order is 3, the last one.
    let q = make_shuffled_queue(tracks(&[0, 1, 2, 3]), Some(1), vec![2, 0, 3, 1]);
    assert_eq!(q.next_index(), None);
}

// --- len, get_current ---

#[test]
fn test_len() {
    let q = make_queue(tracks(&[0, 1, 2]), None);
    assert_eq!(q.len(), 3);
}

#[test]
fn test_get_current_returns_right_track() {
    let q = make_queue(tracks(&[0, 1, 2]), Some(1));
    let current = q.get_current().expect("should have current");
    assert_eq!(current, "id_1");
}

#[test]
fn test_get_current_none_when_no_current() {
    let q = make_queue(tracks(&[0]), None);
    assert!(q.get_current().is_none());
}

// --- append / append_next / insert_after_current ---

#[test]
fn test_append_increases_len() {
    let mut q = make_queue(tracks(&[0]), None);
    q.append(make_track(1));
    assert_eq!(q.len(), 2);
}

#[test]
fn test_append_adds_to_end() {
    let mut q = make_queue(tracks(&[0, 1]), None);
    q.append(make_track(2));
    assert_eq!(q.entries()[2], "id_2");
}

#[test]
fn test_append_next_inserts_after_current() {
    let mut q = make_queue(tracks(&[0, 1, 2]), Some(1));
    let first = q.append_next(&[make_track(3), make_track(4)]);
    assert_eq!(first, 2);
    let ids: Vec<&str> = q.entries().iter().map(|s| s.as_str()).collect();
    assert_eq!(ids, ["id_0", "id_1", "id_3", "id_4", "id_2"]);
}

#[test]
fn test_append_next_no_current_appends_at_end() {
    let mut q = make_queue(tracks(&[0, 1]), None);
    let first = q.append_next(&[make_track(2)]);
    assert_eq!(first, 2);
    assert_eq!(q.len(), 3);
}

#[test]
fn test_insert_after_current() {
    let mut q = make_queue(tracks(&[0, 1]), Some(0));
    q.insert_after_current(make_track(99));
    assert_eq!(q.len(), 3);
    assert_eq!(q.get_current_index(), Some(0));
    assert_eq!(q.entries()[1], "id_99");
    assert_eq!(q.entries()[2], "id_1");
}

#[test]
fn test_insert_after_current_no_current_appends() {
    let mut q = make_queue(tracks(&[0]), None);
    q.insert_after_current(make_track(1));
    assert_eq!(q.len(), 2);
}

// --- remove ---

#[test]
fn test_remove_item_after_current_keeps_index() {
    let mut q = make_queue(tracks(&[0, 1, 2]), Some(0));
    remove(&mut q, 2);
    assert_eq!(q.len(), 2);
    assert_eq!(q.get_current_index(), Some(0));
}

#[test]
fn test_remove_item_before_current_adjusts_index() {
    let mut q = make_queue(tracks(&[0, 1, 2]), Some(2));
    remove(&mut q, 0);
    assert_eq!(q.len(), 2);
    assert_eq!(q.get_current_index(), Some(1));
}

// --- shift ---

#[test]
fn test_shift_moves_item() {
    let mut q = make_queue(tracks(&[0, 1, 2]), None);
    q.shift(2, 0);
    let ids: Vec<&str> = q.entries().iter().map(|s| s.as_str()).collect();
    assert_eq!(ids, ["id_2", "id_0", "id_1"]);
}

#[test]
fn test_shift_updates_current_when_current_is_moved() {
    let mut q = make_queue(tracks(&[0, 1, 2]), Some(2));
    q.shift(2, 0);
    assert_eq!(q.get_current_index(), Some(0));
}

#[test]
fn test_shift_remaps_random_order() {
    let mut q = make_shuffled_queue(tracks(&[0, 1, 2, 3]), Some(0), vec![2, 0, 3, 1]);
    let before: Vec<String> =
        q.get_random_order().unwrap().iter().map(|&i| q.entries()[i].clone()).collect();
    q.shift(0, 2);
    let after: Vec<String> =
        q.get_random_order().unwrap().iter().map(|&i| q.entries()[i].clone()).collect();
    assert_eq!(before, after);
    let mut order = q.get_random_order().unwrap();
    order.sort_unstable();
    assert_eq!(order, (0..q.len()).collect::<Vec<_>>());
}

// --- shuffle ---

#[test]
fn test_shuffle_generates_random_order() {
    let mut q = make_queue(tracks(&[0, 1, 2, 3]), Some(1));
    q.set_shuffle(true);
    let order = q.get_random_order().expect("random_order should be Some");
    assert_eq!(order.len(), 4);
    assert_eq!(order[0], 1);
    let mut sorted = order.clone();
    sorted.sort_unstable();
    assert_eq!(sorted, [0, 1, 2, 3]);
}

#[test]
fn test_shuffle_disable_clears_order() {
    let mut q = make_queue(tracks(&[0, 1]), Some(0));
    q.set_shuffle(true);
    assert!(q.get_random_order().is_some());
    q.set_shuffle(false);
    assert!(q.get_random_order().is_none());
}

#[test]
fn test_append_in_shuffle_mode_maintains_valid_order() {
    let mut q = make_queue(tracks(&[0, 1]), Some(0));
    q.set_shuffle(true);
    q.append(make_track(2));
    let order = q.get_random_order().expect("random_order should be Some");
    assert_eq!(order.len(), 3);
    let mut sorted = order.clone();
    sorted.sort_unstable();
    assert_eq!(sorted, [0, 1, 2], "random_order must contain every queue index once");
}

// --- insert_at / insert_after_id / remove_by_id ---

#[test]
fn test_insert_at_middle_maintains_alignment_and_order() {
    let mut q = make_queue(tracks(&[0, 1, 2]), Some(1));
    q.set_shuffle(true);
    let id = q.insert_at(1, make_track(9));
    assert_eq!(q.index_for_id(id), Some(1));
    assert_eq!(q.track_ids().len(), q.len());
    assert_eq!(q.get_current_index(), Some(2));
    let mut order = q.get_random_order().unwrap();
    order.sort_unstable();
    assert_eq!(order, (0..q.len()).collect::<Vec<_>>());
}

#[test]
fn test_insert_after_id_resolves_and_returns_index() {
    let mut q = make_queue(tracks(&[0, 1]), Some(0));
    let id0 = q.id_for_index(0).unwrap();
    let idx = q.insert_after_id(Some(id0), make_track(9));
    assert_eq!(idx, Some(1));
    assert_eq!(q.entries()[1], "id_9");
}

#[test]
fn test_insert_after_id_unknown_returns_none() {
    let mut q = make_queue(tracks(&[0]), Some(0));
    assert_eq!(q.insert_after_id(Some(123_456), make_track(9)), None);
    assert_eq!(q.len(), 1);
}

#[test]
fn test_remove_by_id_removes_correct_entry() {
    let mut q = make_queue(tracks(&[0, 1, 2]), Some(0));
    let id1 = q.id_for_index(1).unwrap();
    let playable = all_playable(&q);
    q.remove_by_id(id1, &playable);
    assert_eq!(q.len(), 2);
    assert_eq!(q.index_for_id(id1), None);
    assert_eq!(q.entries()[1], "id_2");
}

#[test]
fn test_remove_by_id_unknown_is_noop() {
    let mut q = make_queue(tracks(&[0]), Some(0));
    let playable = all_playable(&q);
    q.remove_by_id(999, &playable);
    assert_eq!(q.len(), 1);
}

#[test]
fn test_remove_out_of_bounds_index_is_noop() {
    let mut q = make_queue(tracks(&[0]), Some(0));
    remove(&mut q, 5);
    assert_eq!(q.len(), 1);
}

// --- clear ---

#[test]
fn test_clear_empties_queue() {
    let mut q = make_queue(tracks(&[0, 1, 2]), Some(1));
    q.clear();
    assert_eq!(q.len(), 0);
}

#[test]
fn test_clear_empties_random_order_when_shuffled() {
    let mut q = make_queue(tracks(&[0, 1, 2]), Some(1));
    q.set_shuffle(true);
    q.clear();
    assert_eq!(q.get_random_order(), Some(Vec::<usize>::new()));
}

#[test]
fn test_ids_aligned_after_append() {
    let mut q = make_queue(tracks(&[0, 1]), Some(0));
    q.append(make_track(2));
    assert_eq!(q.track_ids().len(), q.len());
    let mut ids = q.track_ids();
    let before = ids.len();
    ids.sort_unstable();
    ids.dedup();
    assert_eq!(ids.len(), before);
}

#[test]
fn test_id_is_stable_across_remove_of_other() {
    let mut q = make_queue(tracks(&[0, 1, 2]), Some(0));
    let id_of_2 = q.id_for_index(2).unwrap();
    remove(&mut q, 0);
    assert_eq!(q.index_for_id(id_of_2), Some(1));
}

#[test]
fn test_index_for_unknown_id_is_none() {
    let q = make_queue(tracks(&[0]), Some(0));
    assert_eq!(q.index_for_id(99_999), None);
}

#[test]
fn test_ids_aligned_after_shift() {
    let mut q = make_queue(tracks(&[0, 1, 2]), Some(0));
    let id_first = q.id_for_index(0).unwrap();
    q.shift(0, 2);
    assert_eq!(q.index_for_id(id_first), Some(2));
    assert_eq!(q.track_ids().len(), q.len());
}

#[test]
fn test_append_next_aligns_ids() {
    let mut q = make_queue(tracks(&[0, 1]), Some(0));
    q.append_next(&[make_track(2), make_track(3)]);
    assert_eq!(q.track_ids().len(), q.len());
    let mut ids = q.track_ids();
    let before = ids.len();
    ids.sort_unstable();
    ids.dedup();
    assert_eq!(ids.len(), before, "ids must stay unique");
}

#[test]
fn test_append_then_insert_after_current_alignment() {
    let mut q = make_queue(tracks(&[0, 1]), Some(0));
    q.set_shuffle(true);
    q.append(make_track(2));
    q.insert_after_current(make_track(3));
    assert_eq!(q.track_ids().len(), q.len());
    let mut ids = q.track_ids();
    let before = ids.len();
    ids.sort_unstable();
    ids.dedup();
    assert_eq!(ids.len(), before);
    let mut order = q.get_random_order().unwrap();
    order.sort_unstable();
    assert_eq!(order, (0..q.len()).collect::<Vec<_>>());
}

// --- effects, playback and the laws on concrete values ---

#[test]
fn new_queue_numbers_ids_from_zero() {
    let q = make_queue(tracks(&[5, 6, 7]), None);
    assert_eq!(q.track_ids(), vec![0, 1, 2]);
    assert!(q.is_well_formed());
}

#[test]
fn play_records_load_effect() {
    let mut q = make_queue(tracks(&[0, 1, 2]), None);
    q.play(1, false, false);
    assert_eq!(q.get_current_index(), Some(1));
    assert_eq!(q.take_effects(), vec![QueueEffect::Load(1)]);
    assert!(q.take_effects().is_empty());
}

#[test]
fn play_out_of_range_changes_nothing() {
    let mut q = make_queue(tracks(&[0]), Some(0));
    q.play(4, false, false);
    assert_eq!(q.get_current_index(), Some(0));
    assert!(q.take_effects().is_empty());
}

#[test]
fn next_at_end_stops_without_repeat() {
    let mut q = make_queue(tracks(&[0, 1]), Some(1));
    q.next(false, &[true, true]);
    assert_eq!(q.take_effects(), vec![QueueEffect::Stop]);
}

#[test]
fn next_at_end_wraps_with_repeat_playlist() {
    let mut q = make_queue(tracks(&[0, 1]), Some(1));
    q.set_repeat(RepeatSetting::RepeatPlaylist);
    q.take_effects();
    q.next(false, &[true, true]);
    assert_eq!(q.get_current_index(), Some(0));
    assert_eq!(q.take_effects(), vec![QueueEffect::Load(0)]);
}

#[test]
fn repeat_track_replays_current_unless_skipped_manually() {
    let mut q = make_queue(tracks(&[0, 1, 2]), Some(1));
    q.set_repeat(RepeatSetting::RepeatTrack);
    assert_eq!(q.take_effects(), vec![QueueEffect::LoopStatusChanged]);
    q.next(false, &[true, true, true]);
    assert_eq!(q.take_effects(), vec![QueueEffect::Load(1)]);
    q.next(true, &[true, true, true]);
    assert_eq!(q.get_current_index(), Some(2));
    assert_eq!(q.get_repeat(), RepeatSetting::RepeatPlaylist);
    assert_eq!(q.take_effects(), vec![QueueEffect::Load(2), QueueEffect::LoopStatusChanged]);
}

#[test]
fn previous_undoes_next() {
    let mut q = make_shuffled_queue(tracks(&[0, 1, 2, 3]), Some(2), vec![2, 0, 3, 1]);
    q.next(true, &[true, true, true, true]);
    assert_eq!(q.get_current_index(), Some(0));
    q.previous();
    assert_eq!(q.get_current_index(), Some(2));
}

#[test]
fn shift_keeps_playing_entry() {
    let mut q = make_queue(tracks(&[0, 1, 2, 3]), Some(3));
    q.shift(3, 1);
    assert_eq!(q.get_current(), Some(&"id_3".to_string()));
}

#[test]
fn shift_announces_replaced_list() {
    let mut q = make_queue(tracks(&[0, 1]), None);
    q.shift(0, 1);
    assert_eq!(q.take_effects(), vec![QueueEffect::TrackListReplaced]);
}

#[test]
fn insert_at_announces_added_entry_after_previous_id() {
    let mut q = make_queue(tracks(&[0, 1]), None);
    let id = q.insert_at(1, make_track(7));
    assert_eq!(id, 2);
    assert_eq!(q.take_effects(), vec![QueueEffect::TrackAdded { id: 2, after_id: Some(0) }]);
    let id = q.insert_at(0, make_track(8));
    assert_eq!(q.take_effects(), vec![QueueEffect::TrackAdded { id, after_id: None }]);
}

#[test]
fn insert_at_clamps_index_to_end() {
    let mut q = make_queue(tracks(&[0, 1]), None);
    q.insert_at(10, make_track(7));
    assert_eq!(q.entries()[2], "id_7");
}

#[test]
fn removing_playing_entry_plays_the_one_taking_its_place() {
    let mut q = make_queue(tracks(&[0, 1, 2]), Some(1));
    let removed_id = q.id_for_index(1).unwrap();
    remove(&mut q, 1);
    assert_eq!(q.get_current_index(), Some(1));
    assert_eq!(q.get_current(), Some(&"id_2".to_string()));
    assert_eq!(q.take_effects(), vec![QueueEffect::Load(1), QueueEffect::TrackRemoved(removed_id)]);
}

#[test]
fn removing_last_playing_entry_stops() {
    let mut q = make_queue(tracks(&[0, 1]), Some(1));
    let removed_id = q.id_for_index(1).unwrap();
    remove(&mut q, 1);
    assert_eq!(q.get_current_index(), None);
    assert_eq!(q.take_effects(), vec![QueueEffect::Stop, QueueEffect::TrackRemoved(removed_id)]);
}

#[test]
fn removing_only_entry_stops() {
    let mut q = make_queue(tracks(&[0]), Some(0));
    remove(&mut q, 0);
    assert_eq!(q.len(), 0);
    assert_eq!(q.get_current_index(), None);
    assert_eq!(q.take_effects(), vec![QueueEffect::Stop, QueueEffect::TrackRemoved(0)]);
}

#[test]
fn clear_stops_and_announces() {
    let mut q = make_queue(tracks(&[0, 1]), Some(0));
    q.clear();
    assert_eq!(q.get_current_index(), None);
    assert_eq!(q.take_effects(), vec![QueueEffect::Stop, QueueEffect::TrackListReplaced]);
}

#[test]
fn stop_clears_current() {
    let mut q = make_queue(tracks(&[0, 1]), Some(0));
    q.stop();
    assert_eq!(q.get_current_index(), None);
    assert_eq!(q.take_effects(), vec![QueueEffect::Stop]);
}

#[test]
fn set_shuffle_announces_change() {
    let mut q = make_queue(tracks(&[0, 1]), Some(0));
    q.set_shuffle(true);
    assert!(q.get_shuffle());
    assert_eq!(q.take_effects(), vec![QueueEffect::ShuffleStatusChanged]);
}

#[test]
fn preload_request_preloads_next_entry() {
    let mut q = make_queue(tracks(&[0, 1]), Some(0));
    q.handle_event(QueueEvent::PreloadTrackRequest);
    assert_eq!(q.take_effects(), vec![QueueEffect::Preload(1)]);
}

#[test]
fn toggleplayback_while_playing_toggles() {
    let mut q = make_queue(tracks(&[0, 1]), Some(1));
    q.toggleplayback(PlayerStatus::Playing, &[true, true]);
    assert_eq!(q.take_effects(), vec![QueueEffect::TogglePlayback]);
}

#[test]
fn play_by_id_plays_that_entry() {
    let mut q = make_queue(tracks(&[0, 1, 2]), None);
    let id = q.id_for_index(2).unwrap();
    q.play_by_id(id);
    assert_eq!(q.get_current_index(), Some(2));
    q.play_by_id(1234);
    assert_eq!(q.get_current_index(), Some(2));
}

#[test]
fn can_remove_is_true_for_ordinary_removals() {
    let q = make_queue(tracks(&[0, 1, 2]), Some(0));
    assert!(q.can_remove(1, &[true, true, true]));
}

#[test]
fn append_next_keeps_shuffle_order_a_permutation() {
    let mut q = make_shuffled_queue(tracks(&[0, 1, 2]), Some(1), vec![1, 2, 0]);
    let first = q.append_next(&[make_track(3), make_track(4)]);
    assert_eq!(first, 2);
    assert_eq!(q.entries(), &tracks(&[0, 1, 3, 4, 2]));
    // The old entries keep their play sequence (1, 2, 0 -> indices 1, 4, 0);
    // the new ones follow in queue order.
    assert_eq!(q.get_random_order(), Some(vec![1, 4, 0, 2, 3]));
    let mut order = q.get_random_order().unwrap();
    order.sort_unstable();
    assert_eq!(order, (0..q.len()).collect::<Vec<_>>());
    // Still playing entry 1, which plays entry 2 (old index 2, now 4) next.
    assert_eq!(q.next_index(), Some(4));
}

#[test]
fn shift_keeps_playing_entry_when_moved_over() {
    let mut q = make_queue(tracks(&[0, 1, 2, 3]), Some(1));
    q.shift(0, 2);
    assert_eq!(q.entries(), &tracks(&[1, 2, 0, 3]));
    assert_eq!(q.get_current_index(), Some(0));
    assert_eq!(q.get_current().unwrap(), "id_1");
    let mut q = make_queue(tracks(&[0, 1, 2, 3]), Some(2));
    q.shift(3, 0);
    assert_eq!(q.get_current().unwrap(), "id_2");
    assert_eq!(q.get_current_index(), Some(3));
}

#[test]
fn restore_repairs_persisted_state() {
    // A state that fits is kept.
    let q = Queue::restore(
        QueueState { queue: tracks(&[0, 1, 2]), current_track: Some(1), random_order: Some(vec![2, 0, 1]) },
        RepeatSetting::Off,
        true,
    );
    assert_eq!(q.get_random_order(), Some(vec![2, 0, 1]));
    assert_eq!(q.get_current_index(), Some(1));
    // A playing index past the end is dropped; an order without shuffle too.
    let q = Queue::restore(
        QueueState { queue: tracks(&[0, 1]), current_track: Some(5), random_order: Some(vec![0, 1]) },
        RepeatSetting::Off,
        false,
    );
    assert_eq!(q.get_current_index(), None);
    assert_eq!(q.get_random_order(), None);
    // Shuffle on with a broken order: a new one is drawn, the playing entry first.
    let q = Queue::restore(
        QueueState { queue: tracks(&[0, 1, 2]), current_track: Some(2), random_order: Some(vec![0, 0]) },
        RepeatSetting::Off,
        true,
    );
    let order = q.get_random_order().unwrap();
    assert_eq!(order[0], 2);
    let mut sorted = order.clone();
    sorted.sort_unstable();
    assert_eq!(sorted, vec![0, 1, 2]);
    // Shuffle on without an order: one is drawn.
    let q = Queue::restore(
        QueueState { queue: tracks(&[0, 1]), current_track: None, random_order: None },
        RepeatSetting::Off,
        true,
    );
    assert_eq!(q.get_random_order().unwrap().len(), 2);
}

#[test]
fn inserted_after_current_plays_next_when_shuffled() {
    let mut q = make_shuffled_queue(tracks(&[0, 1, 2]), Some(0), vec![2, 0, 1]);
    q.insert_after_current(make_track(9));
    assert_eq!(q.entries(), &tracks(&[0, 9, 1, 2]));
    assert_eq!(q.next_index(), Some(1));
    assert_eq!(q.get_random_order(), Some(vec![3, 0, 1, 2]));
}
