use lib::process::robust::{
    futex_word_address, release_word, robust_head_words, RobustListWalk, FUTEX_OWNER_DIED, FUTEX_WAITERS,
    ROBUST_LIST_LIMIT,
};

#[test]
fn robust_heads_need_their_three_words() {
    assert_eq!(robust_head_words(0x7000, 24), Some((0x7000, 0x7008, 0x7010)));
    assert_eq!(robust_head_words(0x7000, 16), None);
    assert_eq!(robust_head_words(u64::MAX - 8, 24), None);
}

#[test]
fn futex_words_lie_at_the_offset() {
    assert_eq!(futex_word_address(-8, 0x1000), Some(0xff8));
    assert_eq!(futex_word_address(16, 0x1000), Some(0x1010));
    assert_eq!(futex_word_address(-0x2000, 0x1000), None);
    assert_eq!(futex_word_address(i64::MIN, 0x8000_0000_0000_0000), Some(0));
    assert_eq!(futex_word_address(1, u64::MAX), None);
}

#[test]
fn only_owned_words_are_released() {
    assert_eq!(release_word(42, 42), Some((FUTEX_OWNER_DIED, false)));
    assert_eq!(release_word(FUTEX_WAITERS | 42, 42), Some((FUTEX_WAITERS | FUTEX_OWNER_DIED, true)));
    assert_eq!(release_word(43, 42), None);
}

#[test]
fn a_walk_follows_the_list_back_to_its_head() {
    let head = 0x5000;
    let mut walk = RobustListWalk::new(head, 0x6000, -8, 0x7000);
    assert_eq!(walk.current(), Some(0x6000));
    assert_eq!(walk.advance(0x6100), Some(0x5ff8));
    assert_eq!(walk.current(), Some(0x6100));
    assert_eq!(walk.advance(head), Some(0x60f8));
    assert_eq!(walk.current(), None);
    assert_eq!(walk.pending_word(), Some(0x6ff8));
    let idle = RobustListWalk::new(head, 0, -8, head);
    assert_eq!(idle.current(), None);
    assert_eq!(idle.pending_word(), None);
}

#[test]
fn a_cyclic_list_stops_at_the_limit() {
    let mut walk = RobustListWalk::new(0x5000, 0x6000, 0, 0);
    let mut visited: usize = 0;
    while let Some(entry) = walk.current() {
        walk.advance(entry);
        visited += 1;
    }
    assert_eq!(visited, ROBUST_LIST_LIMIT);
}
