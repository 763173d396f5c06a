use designkit::notify::{
    DispatchReport, EmailChannel, Event, NotificationChannel, NotificationContext, NotificationDispatcher,
    NotificationError, PushChannel, SlackChannel, SmsChannel,
};
use designkit::notify_basic;

fn ctx(event: Event) -> NotificationContext {
    NotificationContext::new(event, "alice@example.com", "Hello", "Body")
}

#[test]
fn dispatch_fans_out_in_registration_order() {
    let mut d: NotificationDispatcher<dyn NotificationChannel> = NotificationDispatcher::new();
    d.register(Event::PaymentFailed, Box::new(EmailChannel::new("smtp.example.com")));
    d.register(Event::PaymentFailed, Box::new(SlackChannel::new("https://hooks", "ops")));
    d.register(Event::OrderPlaced, Box::new(EmailChannel::new("smtp.example.com")));
    let report = d.dispatch(&ctx(Event::PaymentFailed));
    assert_eq!(report.event, Event::PaymentFailed);
    assert_eq!(report.successes, vec!["Email".to_string(), "Slack".to_string()]);
    assert!(report.is_fully_successful());
    assert_eq!(report.to_string(), "Event [PaymentFailed]: 2 sent, 0 failed");
}

#[test]
fn dispatch_with_no_routes_reports_nothing() {
    let d: NotificationDispatcher<dyn NotificationChannel> = NotificationDispatcher::new();
    let report = d.dispatch(&ctx(Event::UserSignup));
    assert!(report.successes.is_empty());
    assert!(report.failures.is_empty());
}

#[test]
fn sms_and_push_need_metadata() {
    let mut d: NotificationDispatcher<dyn NotificationChannel> = NotificationDispatcher::new();
    d.register(Event::PaymentFailed, Box::new(SmsChannel::new("key")));
    d.register(Event::PaymentFailed, Box::new(PushChannel::new("app")));
    let report = d.dispatch(&ctx(Event::PaymentFailed));
    assert!(!report.is_fully_successful());
    assert_eq!(report.failures.len(), 2);
    assert_eq!(
        report.to_string(),
        "Event [PaymentFailed]: 0 sent, 2 failed\n  - [SMS] No phone number in metadata\n  - [Push] No device_token in metadata"
    );
    let with_phone = ctx(Event::PaymentFailed).with_metadata("phone", "+1-555").with_metadata("device_token", "tok");
    let report = d.dispatch(&with_phone);
    assert_eq!(report.successes, vec!["SMS".to_string(), "Push".to_string()]);
}

#[test]
fn channel_lines() {
    let c = ctx(Event::OrderPlaced);
    assert_eq!(
        EmailChannel::new("smtp.x").delivery(&c),
        "  [Email] Sending to alice@example.com via smtp.x: \"Hello\""
    );
    let slack = SlackChannel::new("https://hooks", "general");
    assert_eq!(slack.delivery(&c), "  [Slack] Posting to #general: \"Hello\"");
    let c2 = c.clone().with_metadata("slack_channel", "ops-alerts");
    assert_eq!(slack.delivery(&c2), "  [Slack] Posting to #ops-alerts: \"Hello\"");
    assert_eq!(slack.describe(), "Slack(#general)");
    assert_eq!(EmailChannel::new("h").describe(), "Email(h)");
    assert_eq!(PushChannel::new("app").describe(), "Push(app)");
    assert_eq!(SmsChannel::new("k").describe(), "SMS");
}

#[test]
fn register_for_events_adds_one_channel_each() {
    let mut d: NotificationDispatcher<dyn NotificationChannel> = NotificationDispatcher::new();
    d.register_for_events(&[Event::UserSignup, Event::PasswordReset], || {
        let b: Box<dyn NotificationChannel> = Box::new(EmailChannel::new("smtp"));
        b
    });
    assert_eq!(d.dispatch(&ctx(Event::UserSignup)).successes.len(), 1);
    assert_eq!(d.dispatch(&ctx(Event::PasswordReset)).successes.len(), 1);
    assert_eq!(d.dispatch(&ctx(Event::OrderPlaced)).successes.len(), 0);
    assert_eq!(
        d.routes_description(),
        "Notification routes:\n  UserSignup -> [Email(smtp)]\n  PasswordReset -> [Email(smtp)]"
    );
}

#[test]
fn error_and_report_text() {
    let e = NotificationError::new("SMS", "down");
    assert_eq!(e.to_string(), "[SMS] down");
    let r = DispatchReport { event: Event::UserSignup, successes: vec!["Email".into()], failures: vec![e] };
    assert_eq!(r.to_string(), "Event [UserSignup]: 1 sent, 1 failed\n  - [SMS] down");
    assert_eq!(Event::PasswordReset.to_string(), "PasswordReset");
}

#[test]
fn basic_dispatcher_routes() {
    let d = notify_basic::build_dispatcher();
    let p = notify_basic::make_payload(Event::PaymentFailed, "carol@example.com", "Declined");
    assert_eq!(d.dispatch(&p).len(), 2);
    let p = notify_basic::make_payload(Event::UserSignup, "alice@example.com", "Welcome");
    assert_eq!(d.dispatch(&p).len(), 1);
    let mut d = d;
    d.subscribe(Event::OrderPlaced, Box::new(notify_basic::SmsChannel));
    d.subscribe(Event::OrderPlaced, Box::new(notify_basic::PushChannel));
    let p = notify_basic::make_payload(Event::OrderPlaced, "eve@example.com", "Confirmed");
    let results = d.dispatch(&p);
    assert_eq!(results.len(), 3);
    assert!(results.iter().all(|r| r.is_ok()));
}

#[test]
fn basic_channel_lines() {
    let p = notify_basic::make_payload(Event::OrderPlaced, "bob@example.com", "Order ok");
    assert_eq!(
        notify_basic::EmailChannel.line(&p),
        "  [Email] To: bob@example.com | Subject: OrderPlaced | Body: Order ok"
    );
    assert_eq!(
        notify_basic::SlackChannel::new("https://h").line(&p),
        "  [Slack -> https://h] #bob@example.com: Order ok (re: OrderPlaced)"
    );
    assert_eq!(notify_basic::SmsChannel.line(&p), "  [SMS] To: bob@example.com | OrderPlaced: Order ok");
    assert_eq!(notify_basic::PushChannel.line(&p), "  [Push] Device: bob@example.com | OrderPlaced: Order ok");
}

#[test]
fn routes_group_channels_under_first_registration() {
    let mut d: NotificationDispatcher<dyn NotificationChannel> = NotificationDispatcher::new();
    assert_eq!(d.routes_description(), "Notification routes:");
    d.register(Event::OrderPlaced, Box::new(EmailChannel::new("a")));
    d.register(Event::UserSignup, Box::new(SmsChannel::new("k")));
    d.register(Event::OrderPlaced, Box::new(SlackChannel::new("u", "ops")));
    assert_eq!(
        d.routes_description(),
        "Notification routes:\n  OrderPlaced -> [Email(a), Slack(#ops)]\n  UserSignup -> [SMS]"
    );
}

#[test]
fn channel_send_outcomes() {
    let c = ctx(Event::OrderPlaced);
    assert!(EmailChannel::new("h").send(&c).is_ok());
    assert!(SlackChannel::new("u", "ops").send(&c).is_ok());
    let e = SmsChannel::new("k").send(&c).unwrap_err();
    assert_eq!(e.to_string(), "[SMS] No phone number in metadata");
    let e = PushChannel::new("app").send(&c).unwrap_err();
    assert_eq!(e.to_string(), "[Push] No device_token in metadata");
    let c2 = c.clone().with_metadata("phone", "+1").with_metadata("device_token", "t");
    assert!(SmsChannel::new("k").send(&c2).is_ok());
    assert!(PushChannel::new("app").send(&c2).is_ok());
}
