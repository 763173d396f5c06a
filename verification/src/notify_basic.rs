//! A smaller take on notifications: each channel formats one line for the
//! payload it delivers, and the dispatcher hands back one outcome per channel
//! registered for the event, warning on standard error of each failure.
use vstd::prelude::*;
use crate::fields::Fields;
use crate::notify::{event_name, routes_to, Event};
use crate::text::{owned, push_str};
use crate::sys::{write_stderr_line, write_stdout_line};

verus! {

/// What a notification carries.
#[derive(Debug, Clone)]
pub struct NotificationPayload {
    pub event: Event,
    pub recipient: String,
    pub message: String,
    pub metadata: Fields,
}

/// A payload for `event` with no metadata.
pub fn make_payload(event: Event, recipient: &str, message: &str) -> (r: NotificationPayload)
    ensures
        r.event == event,
        r.recipient@ == recipient@,
        r.message@ == message@,
        r.metadata.map() == Map::<Seq<char>, Seq<char>>::empty(),
{
    NotificationPayload { event, recipient: owned(recipient), message: owned(message), metadata: Fields::new() }
}

/// A delivery mechanism.
pub trait NotificationChannel {
    /// Whether delivering `payload` may end with `r`. A channel that does not
    /// say may end either way.
    open spec fn may_send(&self, payload: NotificationPayload, r: Result<(), String>) -> bool {
        true
    }

    /// The channel's name.
    fn name(&self) -> &str;

    /// Delivers the payload, or says why it could not.
    fn send(&self, payload: &NotificationPayload) -> (r: Result<(), String>)
        ensures
            self.may_send(*payload, r);
}

/// The positions of the subscriptions to `e`, in order.
pub open spec fn positions_of(events: Seq<Event>, e: Event) -> Seq<int>
    decreases events.len(),
{
    if events.len() == 0 {
        Seq::empty()
    } else {
        let rest = positions_of(events.drop_last(), e);
        if events.last() == e {
            rest.push(events.len() - 1)
        } else {
            rest
        }
    }
}

/// Appends the name of `e`.
fn push_event(s: &mut String, e: Event)
    ensures
        final(s)@ == old(s)@ + event_name(e),
{
    let name = e.to_string();
    push_str(s, name.as_str());
}

/// Sends e-mail.
#[derive(Debug, Clone, Copy)]
pub struct EmailChannel;

impl EmailChannel {
    /// `  [Email] To: <recipient> | Subject: <event> | Body: <message>`.
    pub fn line(&self, p: &NotificationPayload) -> (r: String)
        ensures
            r@ == "  [Email] To: "@ + p.recipient@ + " | Subject: "@ + event_name(p.event) + " | Body: "@ + p.message@,
    {
        let mut s = String::new();
        push_str(&mut s, "  [Email] To: ");
        push_str(&mut s, p.recipient.as_str());
        push_str(&mut s, " | Subject: ");
        push_event(&mut s, p.event);
        push_str(&mut s, " | Body: ");
        push_str(&mut s, p.message.as_str());
        s
    }
}

impl NotificationChannel for EmailChannel {
    fn name(&self) -> &str {
        "Email"
    }

    fn send(&self, payload: &NotificationPayload) -> (r: Result<(), String>)
        ensures
            r is Ok,
    {
        let line = self.line(payload);
        let _ = write_stdout_line(line.as_str());
        Ok(())
    }
}

/// Posts to a Slack webhook.
#[derive(Debug, Clone)]
pub struct SlackChannel {
    pub webhook_url: String,
}

impl SlackChannel {
    pub fn new(webhook_url: &str) -> (r: Self)
        ensures
            r.webhook_url@ == webhook_url@,
    {
        SlackChannel { webhook_url: owned(webhook_url) }
    }

    /// `  [Slack -> <url>] #<recipient>: <message> (re: <event>)`.
    pub fn line(&self, p: &NotificationPayload) -> (r: String)
        ensures
            r@ == "  [Slack -> "@ + self.webhook_url@ + "] #"@ + p.recipient@ + ": "@ + p.message@ + " (re: "@
                + event_name(p.event) + ")"@,
    {
        let mut s = String::new();
        push_str(&mut s, "  [Slack -> ");
        push_str(&mut s, self.webhook_url.as_str());
        push_str(&mut s, "] #");
        push_str(&mut s, p.recipient.as_str());
        push_str(&mut s, ": ");
        push_str(&mut s, p.message.as_str());
        push_str(&mut s, " (re: ");
        push_event(&mut s, p.event);
        push_str(&mut s, ")");
        s
    }
}

impl NotificationChannel for SlackChannel {
    fn name(&self) -> &str {
        "Slack"
    }

    fn send(&self, payload: &NotificationPayload) -> (r: Result<(), String>)
        ensures
            r is Ok,
    {
        let line = self.line(payload);
        let _ = write_stdout_line(line.as_str());
        Ok(())
    }
}

/// Sends text messages.
#[derive(Debug, Clone, Copy)]
pub struct SmsChannel;

impl SmsChannel {
    /// `  [SMS] To: <recipient> | <event>: <message>`.
    pub fn line(&self, p: &NotificationPayload) -> (r: String)
        ensures
            r@ == "  [SMS] To: "@ + p.recipient@ + " | "@ + event_name(p.event) + ": "@ + p.message@,
    {
        let mut s = String::new();
        push_str(&mut s, "  [SMS] To: ");
        push_str(&mut s, p.recipient.as_str());
        push_str(&mut s, " | ");
        push_event(&mut s, p.event);
        push_str(&mut s, ": ");
        push_str(&mut s, p.message.as_str());
        s
    }
}

impl NotificationChannel for SmsChannel {
    fn name(&self) -> &str {
        "SMS"
    }

    fn send(&self, payload: &NotificationPayload) -> (r: Result<(), String>)
        ensures
            r is Ok,
    {
        let line = self.line(payload);
        let _ = write_stdout_line(line.as_str());
        Ok(())
    }
}

/// Sends push notifications.
#[derive(Debug, Clone, Copy)]
pub struct PushChannel;

impl PushChannel {
    /// `  [Push] Device: <recipient> | <event>: <message>`.
    pub fn line(&self, p: &NotificationPayload) -> (r: String)
        ensures
            r@ == "  [Push] Device: "@ + p.recipient@ + " | "@ + event_name(p.event) + ": "@ + p.message@,
    {
        let mut s = String::new();
        push_str(&mut s, "  [Push] Device: ");
        push_str(&mut s, p.recipient.as_str());
        push_str(&mut s, " | ");
        push_event(&mut s, p.event);
        push_str(&mut s, ": ");
        push_str(&mut s, p.message.as_str());
        s
    }
}

impl NotificationChannel for PushChannel {
    fn name(&self) -> &str {
        "Push"
    }

    fn send(&self, payload: &NotificationPayload) -> (r: Result<(), String>)
        ensures
            r is Ok,
    {
        let line = self.line(payload);
        let _ = write_stdout_line(line.as_str());
        Ok(())
    }
}

/// Routes events to channels, each event to its channels in the order they
/// subscribed. `C` is the type of channel kept, most often
/// `dyn NotificationChannel`.
pub struct NotificationDispatcher<C: NotificationChannel + ?Sized> {
    events: Vec<Event>,
    channels: Vec<Box<C>>,
}

impl<C: NotificationChannel + ?Sized> NotificationDispatcher<C> {
    /// The event of each subscription, in order.
    pub closed spec fn routes(&self) -> Seq<Event> {
        self.events@
    }

    pub closed spec fn wf(&self) -> bool {
        self.events@.len() == self.channels@.len()
    }

    /// The channel of subscription `j` may answer `r` for `payload`.
    pub closed spec fn channel_may_send(&self, j: int, payload: NotificationPayload, r: Result<(), String>) -> bool {
        self.channels@[j].may_send(payload, r)
    }

    pub fn new() -> (r: Self)
        ensures
            r.wf(),
            r.routes() == Seq::<Event>::empty(),
    {
        NotificationDispatcher { events: Vec::new(), channels: Vec::new() }
    }

    /// Sends `event` to `channel` too.
    pub fn subscribe(&mut self, event: Event, channel: Box<C>)
        requires
            old(self).wf(),
        ensures
            final(self).wf(),
            final(self).routes() == old(self).routes().push(event),
    {
        self.events.push(event);
        self.channels.push(channel);
    }

    /// Sends the payload through every channel subscribed to its event, in
    /// order, and hands back each outcome. Each failure is reported on
    /// standard error, and so is an event that no channel subscribed to.
    pub fn dispatch(&self, payload: &NotificationPayload) -> (r: Vec<Result<(), String>>)
        requires
            self.wf(),
        ensures
            r@.len() == routes_to(self.routes(), payload.event),
            r@.len() == positions_of(self.routes(), payload.event).len(),
            forall|q: int| 0 <= q < r@.len() ==> self.channel_may_send(
                positions_of(self.routes(), payload.event)[q],
                *payload,
                #[trigger] r@[q],
            ),
    {
        let mut results: Vec<Result<(), String>> = Vec::new();
        let mut i: usize = 0;
        while i < self.events.len()
            invariant
                self.wf(),
                0 <= i <= self.events@.len(),
                results@.len() == routes_to(self.events@.take(i as int), payload.event),
                results@.len() == positions_of(self.events@.take(i as int), payload.event).len(),
                forall|q: int| 0 <= q < results@.len() ==> self.channel_may_send(
                    positions_of(self.events@.take(i as int), payload.event)[q],
                    *payload,
                    #[trigger] results@[q],
                ),
            decreases self.events@.len() - i,
        {
            proof {
                assert(self.events@.take(i + 1).drop_last() == self.events@.take(i as int));
                assert(self.events@.take(i + 1).last() == self.events@[i as int]);
            }
            let ghost r0 = results@;
            if self.events[i] == payload.event {
                let channel = &self.channels[i];
                let result = channel.send(payload);
                match &result {
                    Err(e) => {
                        let mut m = String::new();
                        push_str(&mut m, "  [WARN] ");
                        push_str(&mut m, channel.name());
                        push_str(&mut m, " channel failed for ");
                        push_event(&mut m, payload.event);
                        push_str(&mut m, ": ");
                        push_str(&mut m, e.as_str());
                        write_stderr_line(m.as_str());
                    },
                    Ok(()) => {},
                }
                results.push(result);
                proof {
                    assert forall|q: int| 0 <= q < results@.len() implies self.channel_may_send(
                        positions_of(self.events@.take(i + 1), payload.event)[q],
                        *payload,
                        #[trigger] results@[q],
                    ) by {
                        if q < r0.len() {
                            assert(results@[q] == r0[q]);
                        }
                    }
                }
            }
            i = i + 1;
        }
        proof {
            assert(self.events@.take(i as int) == self.events@);
        }
        if results.len() == 0 {
            let mut m = String::new();
            push_str(&mut m, "  [INFO] No channels registered for event: ");
            push_event(&mut m, payload.event);
            write_stderr_line(m.as_str());
        }
        results
    }
}

/// The usual routing: a welcome e-mail on sign-up, a confirmation e-mail for
/// an order, an e-mail and an operations Slack post when a payment fails,
/// and an e-mail on a password reset.
pub fn build_dispatcher() -> (r: NotificationDispatcher<dyn NotificationChannel>)
    ensures
        r.wf(),
        r.routes() == seq![
            Event::UserSignup,
            Event::OrderPlaced,
            Event::PaymentFailed,
            Event::PaymentFailed,
            Event::PasswordReset,
        ],
{
    let mut d: NotificationDispatcher<dyn NotificationChannel> = NotificationDispatcher::new();
    let email: Box<dyn NotificationChannel> = Box::new(EmailChannel);
    d.subscribe(Event::UserSignup, email);
    let email: Box<dyn NotificationChannel> = Box::new(EmailChannel);
    d.subscribe(Event::OrderPlaced, email);
    let email: Box<dyn NotificationChannel> = Box::new(EmailChannel);
    d.subscribe(Event::PaymentFailed, email);
    let slack: Box<dyn NotificationChannel> = Box::new(
        SlackChannel::new("https://hooks.slack.com/services/ops-alerts"),
    );
    d.subscribe(Event::PaymentFailed, slack);
    let email: Box<dyn NotificationChannel> = Box::new(EmailChannel);
    d.subscribe(Event::PasswordReset, email);
    d
}

} // verus!
