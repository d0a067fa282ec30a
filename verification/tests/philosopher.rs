use locks::philosopher::{chopsticks, N};

#[test]
fn philosophers_pick_up_the_documented_chopsticks() {
    assert_eq!(N, 5);
    assert_eq!(chopsticks(0, N), (0, 1));
    assert_eq!(chopsticks(1, N), (0, 1));
    assert_eq!(chopsticks(2, N), (2, 3));
    assert_eq!(chopsticks(3, N), (2, 3));
    assert_eq!(chopsticks(4, N), (4, 0));
}

#[test]
fn first_chopstick_is_even_and_differs_from_the_second() {
    for n in 2..12 {
        for i in 0..n {
            let (a, b) = chopsticks(i, n);
            assert_eq!(a % 2, 0);
            assert_ne!(a, b);
            assert!(a < n && b < n);
        }
    }
}

#[test]
fn a_lone_philosopher_uses_one_chopstick_twice() {
    assert_eq!(chopsticks(0, 1), (0, 0));
}
