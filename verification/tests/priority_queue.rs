use scheduler::queue::priority_queue::{PQComparator, PriorityQueue};
use scheduler::traits::ID;

type Less = fn(&i32, &i32) -> bool;

// make sure to add unique numbers to the queue since the number is used as ID
fn make_pq() -> PriorityQueue<i32, PQComparator<Less, i32>> {
    let less: Less = |a, b| a < b;
    PriorityQueue::new(PQComparator::new(less))
}

fn populate_pq(pq: &mut PriorityQueue<i32, PQComparator<Less, i32>>) {
    pq.enqueue(32);
    pq.enqueue(12);
    pq.enqueue(27);
    pq.enqueue(47);
    pq.enqueue(15);
}

#[test]
fn smoke_test_initialize_priority_queue() {
    let pq = make_pq();

    assert!(pq.is_empty())
}

#[test]
fn test_enqueue() {
    let mut pq = make_pq();

    populate_pq(&mut pq);

    assert_eq!(pq.is_empty(), false)
}

#[test]
fn test_peek() {
    let mut pq = make_pq();

    populate_pq(&mut pq);

    assert_eq!(pq.size(), 5);
    assert_eq!(pq.peek(), Some(&12));
    assert_eq!(pq.size(), 5);
}

#[test]
fn test_dequeue() {
    let mut pq = make_pq();

    populate_pq(&mut pq);

    assert_eq!(pq.size(), 5);

    assert_eq!(pq.dequeue(), Some(12));
    assert_eq!(pq.dequeue(), Some(15));
    assert_eq!(pq.dequeue(), Some(27));
    assert_eq!(pq.dequeue(), Some(32));
    assert_eq!(pq.dequeue(), Some(47));

    assert_eq!(pq.size(), 0);
}

#[test]
fn test_find() {
    let mut pq = make_pq();

    populate_pq(&mut pq);

    assert_eq!(pq.size(), 5);

    assert_eq!(pq.find("27".to_owned()), Some(&27));
    assert_eq!(pq.find("15".to_owned()), Some(&15));

    assert_eq!(pq.size(), 5);
}

#[test]
fn test_remove() {
    let mut pq = make_pq();

    populate_pq(&mut pq);

    assert_eq!(pq.size(), 5);

    assert_eq!(pq.remove("27".to_owned()), Some(27));
    assert_eq!(pq.remove("15".to_owned()), Some(15));

    assert_eq!(pq.size(), 3);

    assert_eq!(pq.dequeue(), Some(12));
    assert_eq!(pq.dequeue(), Some(32));
    assert_eq!(pq.dequeue(), Some(47));

    assert_eq!(pq.is_empty(), true);
    assert_eq!(pq.find("12".to_owned()), None);
}

#[test]
fn number_is_identified_by_its_decimal_form() {
    assert_eq!(27.get_id(), "27");
    assert_eq!((-5).get_id(), "-5");
    assert_eq!(0.get_id(), "0");
}

#[test]
fn queue_hands_out_in_order_whatever_the_order_of_arrival() {
    let mut pq = make_pq();
    let numbers = [50, 3, 99, -7, 12, 0, 41, 8, 77, 23, 5, 64, -30, 18];
    for n in numbers {
        pq.enqueue(n);
    }
    assert_eq!(pq.size(), numbers.len());
    assert_eq!(pq.remove("41".to_owned()), Some(41));
    assert_eq!(pq.remove("-30".to_owned()), Some(-30));
    assert_eq!(pq.remove("99".to_owned()), Some(99));
    assert_eq!(pq.remove("41".to_owned()), None);
    pq.enqueue(41);
    assert_eq!(pq.find("41".to_owned()), Some(&41));
    assert_eq!(pq.find("99".to_owned()), None);
    let mut sorted: Vec<i32> = numbers.iter().copied().filter(|n| *n != -30 && *n != 99).collect();
    sorted.sort();
    let mut out = Vec::new();
    while let Some(n) = pq.dequeue() {
        out.push(n);
    }
    assert_eq!(out, sorted);
    assert_eq!(pq.dequeue(), None);
    assert_eq!(pq.peek(), None);
    assert!(pq.is_empty());
}

#[test]
fn queue_of_one() {
    let mut pq = make_pq();
    pq.enqueue(7);
    assert_eq!(pq.peek(), Some(&7));
    assert_eq!(pq.remove("7".to_owned()), Some(7));
    assert!(pq.is_empty());
    pq.enqueue(7);
    assert_eq!(pq.dequeue(), Some(7));
    assert!(pq.is_empty());
}

#[test]
fn peek_shows_what_dequeue_hands_out() {
    // numbers are ranked by their tens alone, so many of them are of equal rank
    let by_tens: Less = |a, b| a / 10 < b / 10;
    let mut pq: PriorityQueue<i32, PQComparator<Less, i32>> =
        PriorityQueue::new(PQComparator::new(by_tens));
    for n in [35, 31, 12, 17, 38, 14, 52, 11, 33, 19] {
        pq.enqueue(n);
    }
    let mut tens = Vec::new();
    while !pq.is_empty() {
        let shown = *pq.peek().unwrap();
        let size = pq.size();
        assert_eq!(pq.dequeue(), Some(shown));
        assert_eq!(pq.size(), size - 1);
        assert_eq!(pq.find(shown.to_string()), None);
        tens.push(shown / 10);
    }
    assert_eq!(tens, vec![1, 1, 1, 1, 1, 3, 3, 3, 3, 5]);
    assert_eq!(pq.peek(), None);
    assert_eq!(pq.dequeue(), None);
}
