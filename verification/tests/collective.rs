use timetable_ga::collective::{buffer_len, join_frames, shard_size, split_frames, uniform_len};

#[test]
fn frames_of_one_length_are_uniform() {
    assert_eq!(uniform_len(&vec![vec![1, 2, 3], vec![4, 5, 6]]), Some(3));
    assert_eq!(uniform_len(&vec![vec![9]]), Some(1));
    assert_eq!(uniform_len(&vec![vec![], vec![]]), Some(0));
}

#[test]
fn frames_of_different_lengths_are_turned_away() {
    assert_eq!(uniform_len(&vec![vec![1, 2, 3], vec![4, 5]]), None);
    assert_eq!(uniform_len(&vec![vec![1], vec![2], vec![]]), None);
    assert_eq!(uniform_len(&vec![vec![], vec![1]]), None);
}

#[test]
fn no_frames_have_no_length() {
    assert_eq!(uniform_len(&Vec::new()), None);
}

#[test]
fn joining_puts_the_frames_one_after_the_other() {
    let frames = vec![vec![1, 2], vec![3, 4], vec![5, 6]];
    assert_eq!(join_frames(&frames), (2, vec![1, 2, 3, 4, 5, 6]));
    assert_eq!(join_frames(&vec![vec![7, 8, 9]]), (3, vec![7, 8, 9]));
    assert_eq!(join_frames(&vec![vec![], vec![]]), (0, Vec::new()));
}

#[test]
fn an_even_share_for_every_worker() {
    assert_eq!(shard_size(100, 4), Some(25));
    assert_eq!(shard_size(104, 8), Some(13));
    assert_eq!(shard_size(7, 7), Some(1));
    assert_eq!(shard_size(6, 1), Some(6));
}

#[test]
fn a_length_that_does_not_divide_is_turned_away() {
    assert_eq!(shard_size(100, 8), None);
    assert_eq!(shard_size(3, 4), None);
    assert_eq!(shard_size(1, 2), None);
}

#[test]
fn nothing_to_share_and_nobody_to_share_with() {
    assert_eq!(shard_size(0, 4), None);
    assert_eq!(shard_size(4, 0), None);
    assert_eq!(shard_size(0, 0), None);
}

#[test]
fn buffers_are_sized_by_frames() {
    assert_eq!(buffer_len(92, 25), Some(2300));
    assert_eq!(buffer_len(0, 25), Some(0));
    assert_eq!(buffer_len(8, 0), Some(0));
    assert_eq!(buffer_len(usize::MAX, 1), Some(usize::MAX));
    assert_eq!(buffer_len(usize::MAX, 2), None);
    assert_eq!(buffer_len(usize::MAX / 2 + 1, 2), None);
}

#[test]
fn splitting_cuts_frames_of_the_given_length() {
    let bytes = [1, 2, 3, 4, 5, 6];
    assert_eq!(split_frames(&bytes, 2), vec![vec![1, 2], vec![3, 4], vec![5, 6]]);
    assert_eq!(split_frames(&bytes, 3), vec![vec![1, 2, 3], vec![4, 5, 6]]);
    assert_eq!(split_frames(&bytes, 6), vec![vec![1, 2, 3, 4, 5, 6]]);
    assert_eq!(split_frames(&bytes, 1).len(), 6);
}

#[test]
fn the_last_frame_may_be_short() {
    let bytes = [1, 2, 3, 4, 5];
    assert_eq!(split_frames(&bytes, 2), vec![vec![1, 2], vec![3, 4], vec![5]]);
    assert_eq!(split_frames(&bytes, 9), vec![vec![1, 2, 3, 4, 5]]);
    assert_eq!(split_frames(&[], 4), Vec::<Vec<u8>>::new());
}

#[test]
fn splitting_agrees_with_chunks() {
    let bytes: Vec<u8> = (0..=255).collect();
    for frame_len in 1..40 {
        let expected: Vec<Vec<u8>> = bytes.chunks(frame_len).map(|chunk| chunk.to_vec()).collect();
        assert_eq!(split_frames(&bytes, frame_len), expected);
    }
}

#[test]
fn scattered_and_gathered_frames_come_back() {
    let frames: Vec<Vec<u8>> = (0..12u8).map(|i| vec![i, i + 100, 255 - i]).collect();
    let (frame_len, bytes) = join_frames(&frames);
    assert_eq!(frame_len, 3);
    for workers in [1usize, 2, 3, 4, 6, 12] {
        let share = shard_size(frames.len(), workers).unwrap();
        let block = buffer_len(frame_len, share).unwrap();
        let mut gathered: Vec<u8> = Vec::new();
        for rank in 0..workers {
            let received = &bytes[rank * block..(rank + 1) * block];
            let shard = split_frames(received, frame_len);
            assert_eq!(shard, frames[rank * share..(rank + 1) * share].to_vec());
            gathered.extend(join_frames(&shard).1);
        }
        assert_eq!(split_frames(&gathered, frame_len), frames);
    }
}
