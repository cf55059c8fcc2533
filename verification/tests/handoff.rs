use pico_dvi::render::queue::Queue;
use pico_dvi::render::swapcell::SwapCell;

#[test]
fn queue_is_first_in_first_out() {
    let mut q: Queue<4> = Queue::new();
    assert_eq!(q.len(), 0);
    assert_eq!(q.peek(), None);
    q.push_unchecked(10);
    q.push_unchecked(20);
    q.push_unchecked(30);
    assert_eq!(q.len(), 3);
    assert_eq!(q.peek(), Some(10));
    assert_eq!(q.try_take(), Some(10));
    assert_eq!(q.try_take(), Some(20));
    assert_eq!(q.len(), 1);
    q.push_unchecked(40);
    q.push_unchecked(50);
    assert_eq!(q.len(), 3);
    assert_eq!(q.try_take(), Some(30));
    assert_eq!(q.try_take(), Some(40));
    assert_eq!(q.try_take(), Some(50));
    assert_eq!(q.try_take(), None);
    assert_eq!(q.len(), 0);
}

#[test]
fn queue_len_is_pushes_less_removals() {
    let mut q: Queue<8> = Queue::new();
    let mut pushed = 0;
    let mut removed = 0;
    for round in 0..50u32 {
        for k in 0..(round % 4) {
            if q.len() < 7 {
                q.push_unchecked(round * 10 + k);
                pushed += 1;
            }
        }
        if round % 3 != 0 && q.len() > 0 {
            q.remove();
            removed += 1;
        }
        assert_eq!(q.len(), pushed - removed);
    }
}

#[test]
fn queue_wraps_round_its_ring() {
    let mut q: Queue<3> = Queue::new();
    for i in 0..20 {
        q.push_unchecked(i);
        q.push_unchecked(i + 100);
        assert_eq!(q.len(), 2);
        assert_eq!(q.peek(), Some(i));
        q.remove();
        assert_eq!(q.try_take(), Some(i + 100));
    }
}

#[test]
fn queue_of_one_slot_holds_nothing() {
    let mut q: Queue<1> = Queue::new();
    assert_eq!(q.len(), 0);
    assert_eq!(q.try_take(), None);
}

#[test]
fn swap_cell_hands_a_value_over_once() {
    let mut cell: SwapCell<String> = SwapCell::new();
    assert!(!cell.ready_for_client());
    assert_eq!(cell.try_take(), None);
    cell.set_for_client("a".to_string());
    assert!(cell.ready_for_client());
    assert!(!cell.ready_for_system());
    assert_eq!(cell.try_take(), Some("a".to_string()));
    assert_eq!(cell.try_take(), None);
    assert_eq!(cell.try_take(), None);
    cell.set_for_client("b".to_string());
    assert_eq!(cell.try_take(), Some("b".to_string()));
}

#[test]
fn swap_cell_swaps_for_the_system() {
    let mut cell: SwapCell<u32> = SwapCell::new();
    let mut held = 1;
    assert!(!cell.try_swap_by_system(&mut held));
    assert_eq!(held, 1);
    cell.set_for_client(7);
    assert!(!cell.try_swap_by_system(&mut held));
    assert_eq!(held, 1);
    assert_eq!(cell.try_take(), Some(7));
    cell.set_for_system(2);
    assert!(cell.ready_for_system());
    assert_eq!(cell.try_take(), None);
    assert!(cell.try_swap_by_system(&mut held));
    assert_eq!(held, 2);
    assert!(!cell.try_swap_by_system(&mut held));
    assert_eq!(held, 2);
    assert_eq!(cell.try_take(), Some(1));
    cell.set_for_system(3);
    cell.swap_by_system(&mut held);
    assert_eq!(held, 3);
    assert_eq!(cell.try_take(), Some(2));
}

#[test]
fn blocking_takes_after_the_wait() {
    let mut q: Queue<4> = Queue::new();
    q.push_unchecked(8);
    q.push_unchecked(9);
    assert_eq!(q.peek_blocking(), 8);
    assert_eq!(q.take_blocking(), 8);
    assert_eq!(q.take_blocking(), 9);
    assert_eq!(q.len(), 0);
    let mut cell: SwapCell<u8> = SwapCell::new();
    cell.set_for_client(5);
    assert_eq!(cell.take_blocking(), 5);
    assert!(!cell.ready_for_client());
}
