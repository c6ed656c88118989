use pixel_canvas::canvas::{Canvas, PixelUpdate, BLANK};
use pixel_canvas::hub::{Delivery, Message};
use pixel_canvas::lifecycle::{
    complain, connect, disconnect, handle, stamp, submit, Event, Outcome, Submission,
};
use pixel_canvas::limiter::{RateLimiter, Verdict};
use pixel_canvas::registry::ClientRegistry;
use pixel_canvas::rejection::Rejection;

const A: u64 = 1;
const B: u64 = 2;

fn sorted(mut plan: Vec<Delivery>) -> Vec<Delivery> {
    plan.sort_by_key(|d| d.recipient);
    plan
}

fn to(recipient: u64, message: Message) -> Delivery {
    Delivery { recipient, message }
}

fn submission(client: u64, x: u32, y: u32, color: u32, at: i64) -> Submission {
    Submission { client, update: PixelUpdate { x, y, color }, at }
}

#[test]
fn two_clients_share_a_three_by_three_canvas() {
    let mut canvas = Canvas::new(3, 3).unwrap();
    let mut registry = ClientRegistry::new();
    let mut limiter = RateLimiter::new(1000);

    let plan = handle(&mut canvas, &mut registry, &mut limiter, Event::Connect(A));
    assert_eq!(
        plan,
        vec![to(A, Message::InitCanvas(vec![BLANK; 9])), to(A, Message::ClientCount(1))]
    );

    let mut plan = handle(&mut canvas, &mut registry, &mut limiter, Event::Connect(B));
    assert_eq!(plan.remove(0), to(B, Message::InitCanvas(vec![BLANK; 9])));
    assert_eq!(
        sorted(plan),
        vec![to(A, Message::ClientCount(2)), to(B, Message::ClientCount(2))]
    );

    let green = submission(A, 1, 1, 0x00FF00, 0);
    let plan = handle(&mut canvas, &mut registry, &mut limiter, Event::Submit(green));
    assert_eq!(
        sorted(plan),
        vec![
            to(A, Message::PixelUpdated(green.update)),
            to(B, Message::PixelUpdated(green.update)),
        ]
    );
    assert_eq!(canvas.get(1, 1), Some(0x00FF00));

    let before = canvas.snapshot();
    let red_early = submission(A, 0, 0, 0xFF0000, 500);
    let plan = handle(&mut canvas, &mut registry, &mut limiter, Event::Submit(red_early));
    assert_eq!(plan, vec![to(A, Message::Error(Rejection::Throttled))]);
    assert_eq!(canvas.snapshot(), before);

    let red = submission(A, 0, 0, 0xFF0000, 1000);
    let plan = handle(&mut canvas, &mut registry, &mut limiter, Event::Submit(red));
    assert_eq!(
        sorted(plan),
        vec![
            to(A, Message::PixelUpdated(red.update)),
            to(B, Message::PixelUpdated(red.update)),
        ]
    );
    let mut expected = vec![BLANK; 9];
    expected[0] = 0xFF0000;
    expected[4] = 0x00FF00;
    assert_eq!(canvas.snapshot(), expected);
}

#[test]
fn connect_sends_the_current_canvas() {
    let mut canvas = Canvas::new(2, 1).unwrap();
    assert_eq!(canvas.write(1, 0, 5), Ok(()));
    let mut registry = ClientRegistry::new();
    let plan = connect(&canvas, &mut registry, A);
    assert_eq!(plan, vec![to(A, Message::InitCanvas(vec![BLANK, 5])), to(A, Message::ClientCount(1))]);
    assert!(registry.contains(A));
}

#[test]
fn connecting_twice_does_not_count_twice() {
    let canvas = Canvas::new(1, 1).unwrap();
    let mut registry = ClientRegistry::new();
    connect(&canvas, &mut registry, A);
    let plan = connect(&canvas, &mut registry, A);
    assert_eq!(plan, vec![to(A, Message::InitCanvas(vec![BLANK])), to(A, Message::ClientCount(1))]);
    assert_eq!(registry.count(), 1);
}

#[test]
fn every_client_hears_the_count_after_each_connect() {
    let canvas = Canvas::new(1, 1).unwrap();
    let mut registry = ClientRegistry::new();
    let n: u64 = 20;
    for client in 0..n {
        let mut plan = connect(&canvas, &mut registry, client);
        assert_eq!(plan.remove(0), to(client, Message::InitCanvas(vec![BLANK])));
        let expected: Vec<Delivery> =
            (0..=client).map(|c| to(c, Message::ClientCount(client as usize + 1))).collect();
        assert_eq!(sorted(plan), expected);
    }
    assert_eq!(registry.count(), n as usize);
}

#[test]
fn accepted_submission_is_remembered() {
    let mut canvas = Canvas::new(2, 2).unwrap();
    let mut registry = ClientRegistry::new();
    let mut limiter = RateLimiter::new(1000);
    connect(&canvas, &mut registry, A);
    let (outcome, plan) = submit(&mut canvas, &registry, &mut limiter, submission(A, 1, 1, 9, 77));
    assert_eq!(outcome, Outcome::Accepted);
    assert_eq!(plan, vec![to(A, Message::PixelUpdated(PixelUpdate { x: 1, y: 1, color: 9 }))]);
    assert_eq!(limiter.last_accepted(A), Some(77));
    assert_eq!(canvas.get(1, 1), Some(9));
}

#[test]
fn throttled_submission_changes_nothing() {
    let mut canvas = Canvas::new(2, 2).unwrap();
    let mut registry = ClientRegistry::new();
    let mut limiter = RateLimiter::new(1000);
    connect(&canvas, &mut registry, A);
    connect(&canvas, &mut registry, B);
    submit(&mut canvas, &registry, &mut limiter, submission(A, 0, 0, 1, 0));
    let before = canvas.snapshot();
    let (outcome, plan) = submit(&mut canvas, &registry, &mut limiter, submission(A, 1, 1, 2, 999));
    assert_eq!(outcome, Outcome::Rejected(Rejection::Throttled));
    assert_eq!(plan, vec![to(A, Message::Error(Rejection::Throttled))]);
    assert_eq!(canvas.snapshot(), before);
    assert_eq!(limiter.last_accepted(A), Some(0));
    let (outcome, _) = submit(&mut canvas, &registry, &mut limiter, submission(B, 1, 1, 2, 999));
    assert_eq!(outcome, Outcome::Accepted);
}

#[test]
fn out_of_bounds_submission_changes_nothing_and_costs_no_cooldown() {
    let mut canvas = Canvas::new(2, 2).unwrap();
    let mut registry = ClientRegistry::new();
    let mut limiter = RateLimiter::new(1000);
    connect(&canvas, &mut registry, A);
    connect(&canvas, &mut registry, B);
    let (outcome, plan) = submit(&mut canvas, &registry, &mut limiter, submission(A, 2, 0, 1, 10));
    assert_eq!(outcome, Outcome::Rejected(Rejection::OutOfBounds));
    assert_eq!(plan, vec![to(A, Message::Error(Rejection::OutOfBounds))]);
    assert_eq!(canvas.snapshot(), vec![BLANK; 4]);
    assert_eq!(limiter.last_accepted(A), None);
    assert_eq!(limiter.allow(A, 11), Verdict::Accepted);
    let (outcome, _) = submit(&mut canvas, &registry, &mut limiter, submission(A, 0, 2, 1, 11));
    assert_eq!(outcome, Outcome::Rejected(Rejection::OutOfBounds));
    let (outcome, _) = submit(&mut canvas, &registry, &mut limiter, submission(A, 1, 1, 1, 12));
    assert_eq!(outcome, Outcome::Accepted);
}

#[test]
fn throttling_is_judged_before_the_bounds() {
    let mut canvas = Canvas::new(2, 2).unwrap();
    let mut registry = ClientRegistry::new();
    let mut limiter = RateLimiter::new(1000);
    connect(&canvas, &mut registry, A);
    submit(&mut canvas, &registry, &mut limiter, submission(A, 0, 0, 1, 0));
    let (outcome, _) = submit(&mut canvas, &registry, &mut limiter, submission(A, 9, 9, 1, 1));
    assert_eq!(outcome, Outcome::Rejected(Rejection::Throttled));
}

#[test]
fn submission_of_a_stranger_is_ignored() {
    let mut canvas = Canvas::new(2, 2).unwrap();
    let mut registry = ClientRegistry::new();
    let mut limiter = RateLimiter::new(1000);
    connect(&canvas, &mut registry, A);
    let (outcome, plan) = submit(&mut canvas, &registry, &mut limiter, submission(B, 0, 0, 1, 0));
    assert_eq!(outcome, Outcome::Ignored);
    assert_eq!(plan, Vec::<Delivery>::new());
    assert_eq!(canvas.snapshot(), vec![BLANK; 4]);
    assert_eq!(limiter.remembered(), 0);
}

#[test]
fn disconnect_tells_those_who_remain() {
    let canvas = Canvas::new(1, 1).unwrap();
    let mut registry = ClientRegistry::new();
    let mut limiter = RateLimiter::new(1000);
    connect(&canvas, &mut registry, A);
    connect(&canvas, &mut registry, B);
    let plan = disconnect(&mut registry, &mut limiter, A);
    assert_eq!(plan, vec![to(B, Message::ClientCount(1))]);
    assert!(!registry.contains(A));
    let plan = disconnect(&mut registry, &mut limiter, B);
    assert_eq!(plan, Vec::<Delivery>::new());
    assert_eq!(registry.count(), 0);
}

#[test]
fn disconnect_of_a_stranger_repeats_the_count() {
    let canvas = Canvas::new(1, 1).unwrap();
    let mut registry = ClientRegistry::new();
    let mut limiter = RateLimiter::new(1000);
    connect(&canvas, &mut registry, A);
    let plan = disconnect(&mut registry, &mut limiter, B);
    assert_eq!(plan, vec![to(A, Message::ClientCount(1))]);
    assert_eq!(registry.count(), 1);
}

#[test]
fn disconnect_forgets_the_last_submission() {
    let mut canvas = Canvas::new(2, 2).unwrap();
    let mut registry = ClientRegistry::new();
    let mut limiter = RateLimiter::new(1000);
    connect(&canvas, &mut registry, A);
    submit(&mut canvas, &registry, &mut limiter, submission(A, 0, 0, 1, 0));
    assert_eq!(limiter.remembered(), 1);
    disconnect(&mut registry, &mut limiter, A);
    assert_eq!(limiter.remembered(), 0);
    assert_eq!(limiter.last_accepted(A), None);
    connect(&canvas, &mut registry, A);
    let (outcome, _) = submit(&mut canvas, &registry, &mut limiter, submission(A, 1, 1, 2, 1));
    assert_eq!(outcome, Outcome::Accepted);
}

#[test]
fn nothing_happens_for_a_client_after_its_disconnect() {
    let mut canvas = Canvas::new(2, 2).unwrap();
    let mut registry = ClientRegistry::new();
    let mut limiter = RateLimiter::new(1000);
    handle(&mut canvas, &mut registry, &mut limiter, Event::Connect(A));
    handle(&mut canvas, &mut registry, &mut limiter, Event::Disconnect(A));
    let plan =
        handle(&mut canvas, &mut registry, &mut limiter, Event::Submit(submission(A, 0, 0, 1, 0)));
    assert_eq!(plan, Vec::<Delivery>::new());
    let plan = handle(&mut canvas, &mut registry, &mut limiter, Event::Malformed(A));
    assert_eq!(plan, Vec::<Delivery>::new());
    assert_eq!(canvas.snapshot(), vec![BLANK; 4]);
    assert_eq!(limiter.remembered(), 0);
    assert_eq!(registry.count(), 0);
}

#[test]
fn malformed_payload_is_answered_to_its_author() {
    let canvas = Canvas::new(1, 1).unwrap();
    let mut registry = ClientRegistry::new();
    connect(&canvas, &mut registry, A);
    connect(&canvas, &mut registry, B);
    assert_eq!(complain(&registry, A), vec![to(A, Message::Error(Rejection::Malformed))]);
    assert_eq!(complain(&registry, 3), Vec::<Delivery>::new());
}

#[test]
fn malformed_payload_changes_nothing() {
    let mut canvas = Canvas::new(1, 1).unwrap();
    let mut registry = ClientRegistry::new();
    let mut limiter = RateLimiter::new(1000);
    handle(&mut canvas, &mut registry, &mut limiter, Event::Connect(A));
    let plan = handle(&mut canvas, &mut registry, &mut limiter, Event::Malformed(A));
    assert_eq!(plan, vec![to(A, Message::Error(Rejection::Malformed))]);
    assert_eq!(canvas.snapshot(), vec![BLANK]);
    assert_eq!(registry.count(), 1);
    assert_eq!(limiter.remembered(), 0);
    let (outcome, _) = submit(&mut canvas, &registry, &mut limiter, submission(A, 0, 0, 1, 0));
    assert_eq!(outcome, Outcome::Accepted);
}

#[test]
fn canvas_converges_whatever_the_order() {
    let subs = [
        submission(1, 0, 0, 11, 0),
        submission(2, 1, 0, 12, 0),
        submission(3, 0, 1, 13, 0),
        submission(1, 1, 1, 14, 1000),
    ];
    let orders: [[usize; 4]; 4] = [[0, 1, 2, 3], [2, 1, 0, 3], [1, 0, 3, 2], [0, 3, 2, 1]];
    for order in orders.iter() {
        let mut canvas = Canvas::new(2, 2).unwrap();
        let mut registry = ClientRegistry::new();
        let mut limiter = RateLimiter::new(1000);
        for client in 1..=3u64 {
            connect(&canvas, &mut registry, client);
        }
        for i in order.iter() {
            let (outcome, plan) = submit(&mut canvas, &registry, &mut limiter, subs[*i]);
            assert_eq!(outcome, Outcome::Accepted);
            assert_eq!(plan.len(), 3);
        }
        assert_eq!(canvas.snapshot(), vec![11, 12, 13, 14]);
    }
}

#[test]
fn stamp_keeps_author_and_update() {
    let update = PixelUpdate { x: 3, y: 4, color: 5 };
    let s = stamp(9, update);
    assert_eq!(s.client, 9);
    assert_eq!(s.update, update);
    // a clock that reads later than the year 2020
    assert!(s.at > 1_577_836_800_000);
}

#[test]
fn stamped_submissions_are_throttled_by_the_clock() {
    let mut canvas = Canvas::new(2, 2).unwrap();
    let mut registry = ClientRegistry::new();
    let mut limiter = RateLimiter::new(3_600_000);
    connect(&canvas, &mut registry, A);
    let first = stamp(A, PixelUpdate { x: 0, y: 0, color: 1 });
    let (outcome, _) = submit(&mut canvas, &registry, &mut limiter, first);
    assert_eq!(outcome, Outcome::Accepted);
    let second = stamp(A, PixelUpdate { x: 1, y: 1, color: 2 });
    let (outcome, _) = submit(&mut canvas, &registry, &mut limiter, second);
    assert_eq!(outcome, Outcome::Rejected(Rejection::Throttled));
    assert_eq!(canvas.snapshot(), vec![1, BLANK, BLANK, BLANK]);
}
