//! Notifications: application events routed to delivery channels. Each
//! channel is a type of its own behind one trait; a dispatcher keeps which
//! channels each event goes to and reports what each delivery gave.
use vstd::prelude::*;
use crate::fields::Fields;
use crate::text::{decimal, owned, push_decimal, push_str};
use crate::sys::write_stdout_line;

verus! {

/// The events the application emits.
#[derive(Debug, Clone, Copy, PartialEq, Eq, Hash, Structural)]
pub enum Event {
    UserSignup,
    OrderPlaced,
    PaymentFailed,
    PasswordReset,
}

pub open spec fn event_name(e: Event) -> Seq<char> {
    match e {
        Event::UserSignup => "UserSignup"@,
        Event::OrderPlaced => "OrderPlaced"@,
        Event::PaymentFailed => "PaymentFailed"@,
        Event::PasswordReset => "PasswordReset"@,
    }
}

impl Event {
    /// The event's name.
    pub fn to_string(&self) -> (r: String)
        ensures
            r@ == event_name(*self),
    {
        match self {
            Event::UserSignup => owned("UserSignup"),
            Event::OrderPlaced => owned("OrderPlaced"),
            Event::PaymentFailed => owned("PaymentFailed"),
            Event::PasswordReset => owned("PasswordReset"),
        }
    }
}

/// What is delivered with a notification; each channel uses what it needs.
#[derive(Debug, Clone)]
pub struct NotificationContext {
    pub event: Event,
    pub recipient: String,
    pub subject: String,
    pub body: String,
    pub metadata: Fields,
}

impl NotificationContext {
    pub fn new(event: Event, recipient: &str, subject: &str, body: &str) -> (r: Self)
        ensures
            r.event == event,
            r.recipient@ == recipient@,
            r.subject@ == subject@,
            r.body@ == body@,
            r.metadata.map() == Map::<Seq<char>, Seq<char>>::empty(),
    {
        NotificationContext {
            event,
            recipient: owned(recipient),
            subject: owned(subject),
            body: owned(body),
            metadata: Fields::new(),
        }
    }

    /// The same context with `key` set to `value` in its metadata.
    pub fn with_metadata(self, key: &str, value: &str) -> (r: Self)
        ensures
            r.event == self.event,
            r.recipient == self.recipient,
            r.subject == self.subject,
            r.body == self.body,
            r.metadata.map() == self.metadata.map().insert(key@, value@),
    {
        let mut s = self;
        s.metadata.insert(key, value);
        s
    }
}

/// A delivery that failed, with the channel it failed on.
#[derive(Debug, Clone)]
pub struct NotificationError {
    pub channel: String,
    pub message: String,
}

impl NotificationError {
    pub fn new(channel: &str, message: &str) -> (r: Self)
        ensures
            r.channel@ == channel@,
            r.message@ == message@,
    {
        NotificationError { channel: owned(channel), message: owned(message) }
    }

    /// `[<channel>] <message>`.
    pub fn to_string(&self) -> (r: String)
        ensures
            r@ == error_text(*self),
    {
        let mut s = String::new();
        push_str(&mut s, "[");
        push_str(&mut s, self.channel.as_str());
        push_str(&mut s, "] ");
        push_str(&mut s, self.message.as_str());
        s
    }
}

/// `[<channel>] <message>`.
pub open spec fn error_text(e: NotificationError) -> Seq<char> {
    "["@ + e.channel@ + "] "@ + e.message@
}

/// The failures of a report, one line each.
pub open spec fn failure_lines(f: Seq<NotificationError>) -> Seq<char>
    decreases f.len(),
{
    if f.len() == 0 {
        Seq::empty()
    } else {
        failure_lines(f.drop_last()) + "\n  - "@ + error_text(f.last())
    }
}

/// What dispatching one event gave: the channels that delivered it and the
/// failures of the others.
#[derive(Debug)]
pub struct DispatchReport {
    pub event: Event,
    pub successes: Vec<String>,
    pub failures: Vec<NotificationError>,
}

impl DispatchReport {
    /// No channel failed.
    pub fn is_fully_successful(&self) -> (r: bool)
        ensures
            r == (self.failures@.len() == 0),
    {
        self.failures.len() == 0
    }

    /// `Event [<event>]: <n> sent, <m> failed`, then a line for each failure.
    pub fn to_string(&self) -> (r: String)
        ensures
            r@ == "Event ["@ + event_name(self.event) + "]: "@ + decimal(self.successes@.len()) + " sent, "@
                + decimal(self.failures@.len()) + " failed"@ + failure_lines(self.failures@),
    {
        let mut s = String::new();
        push_str(&mut s, "Event [");
        let name = self.event.to_string();
        push_str(&mut s, name.as_str());
        push_str(&mut s, "]: ");
        push_decimal(&mut s, self.successes.len() as u64);
        push_str(&mut s, " sent, ");
        push_decimal(&mut s, self.failures.len() as u64);
        push_str(&mut s, " failed");
        let ghost head = s@;
        let mut i: usize = 0;
        while i < self.failures.len()
            invariant
                0 <= i <= self.failures@.len(),
                s@ == head + failure_lines(self.failures@.take(i as int)),
            decreases self.failures@.len() - i,
        {
            proof {
                assert(self.failures@.take(i + 1).drop_last() == self.failures@.take(i as int));
            }
            push_str(&mut s, "\n  - ");
            let line = self.failures[i].to_string();
            push_str(&mut s, line.as_str());
            proof {
                assert(s@ =~= head + failure_lines(self.failures@.take(i + 1)));
            }
            i = i + 1;
        }
        proof {
            assert(self.failures@.take(i as int) == self.failures@);
        }
        s
    }
}

/// A way of delivering notifications. New channels are new types that
/// implement this trait.
pub trait NotificationChannel {
    /// Whether delivering `ctx` may end with `r`. A channel that does not say
    /// may end either way.
    open spec fn may_send(&self, ctx: NotificationContext, r: Result<(), NotificationError>) -> bool {
        true
    }

    /// Whether `name` may be the channel's name. A channel that does not say
    /// may have any.
    open spec fn may_name(&self, name: Seq<char>) -> bool {
        true
    }

    /// Delivers the notification, or says why it could not.
    fn send(&self, ctx: &NotificationContext) -> (r: Result<(), NotificationError>)
        ensures
            self.may_send(*ctx, r);

    /// The channel's name, for reports.
    fn channel_name(&self) -> (r: &str)
        ensures
            self.may_name(r@);

    /// The channel's description, for listing the routes.
    fn describe(&self) -> String;
}

/// Sends e-mail through an SMTP host.
#[derive(Debug, Clone)]
pub struct EmailChannel {
    pub smtp_host: String,
}

impl EmailChannel {
    pub fn new(smtp_host: &str) -> (r: Self)
        ensures
            r.smtp_host@ == smtp_host@,
    {
        EmailChannel { smtp_host: owned(smtp_host) }
    }

    /// The line that reports the delivery.
    pub fn delivery(&self, ctx: &NotificationContext) -> (r: String)
        ensures
            r@ == "  [Email] Sending to "@ + ctx.recipient@ + " via "@ + self.smtp_host@ + ": \""@ + ctx.subject@
                + "\""@,
    {
        let mut s = String::new();
        push_str(&mut s, "  [Email] Sending to ");
        push_str(&mut s, ctx.recipient.as_str());
        push_str(&mut s, " via ");
        push_str(&mut s, self.smtp_host.as_str());
        push_str(&mut s, ": \"");
        push_str(&mut s, ctx.subject.as_str());
        push_str(&mut s, "\"");
        s
    }
}

impl NotificationChannel for EmailChannel {
    fn send(&self, ctx: &NotificationContext) -> (r: Result<(), NotificationError>)
        ensures
            r is Ok,
    {
        let line = self.delivery(ctx);
        let _ = write_stdout_line(line.as_str());
        Ok(())
    }

    open spec fn may_send(&self, ctx: NotificationContext, r: Result<(), NotificationError>) -> bool {
        r is Ok
    }

    open spec fn may_name(&self, name: Seq<char>) -> bool {
        name == "Email"@
    }

    fn channel_name(&self) -> (r: &str) {
        proof { reveal_strlit("Email"); }
        "Email"
    }

    fn describe(&self) -> (r: String)
        ensures
            r@ == "Email("@ + self.smtp_host@ + ")"@,
    {
        let mut s = String::new();
        push_str(&mut s, "Email(");
        push_str(&mut s, self.smtp_host.as_str());
        push_str(&mut s, ")");
        s
    }
}

/// Posts to a Slack webhook.
#[derive(Debug, Clone)]
pub struct SlackChannel {
    pub webhook_url: String,
    pub default_channel: String,
}

impl SlackChannel {
    pub fn new(webhook_url: &str, default_channel: &str) -> (r: Self)
        ensures
            r.webhook_url@ == webhook_url@,
            r.default_channel@ == default_channel@,
    {
        SlackChannel { webhook_url: owned(webhook_url), default_channel: owned(default_channel) }
    }

    /// The line that reports the delivery: to the `slack_channel` of the
    /// metadata when there is one, else to the default channel.
    pub fn delivery(&self, ctx: &NotificationContext) -> (r: String)
        ensures
            r@ == "  [Slack] Posting to #"@ + (if ctx.metadata.map().dom().contains("slack_channel"@) {
                ctx.metadata.map()["slack_channel"@]
            } else {
                self.default_channel@
            }) + ": \""@ + ctx.subject@ + "\""@,
    {
        let mut s = String::new();
        push_str(&mut s, "  [Slack] Posting to #");
        match ctx.metadata.get("slack_channel") {
            Some(t) => push_str(&mut s, t.as_str()),
            None => push_str(&mut s, self.default_channel.as_str()),
        }
        push_str(&mut s, ": \"");
        push_str(&mut s, ctx.subject.as_str());
        push_str(&mut s, "\"");
        s
    }
}

impl NotificationChannel for SlackChannel {
    fn send(&self, ctx: &NotificationContext) -> (r: Result<(), NotificationError>)
        ensures
            r is Ok,
    {
        let line = self.delivery(ctx);
        let _ = write_stdout_line(line.as_str());
        Ok(())
    }

    open spec fn may_send(&self, ctx: NotificationContext, r: Result<(), NotificationError>) -> bool {
        r is Ok
    }

    open spec fn may_name(&self, name: Seq<char>) -> bool {
        name == "Slack"@
    }

    fn channel_name(&self) -> (r: &str) {
        proof { reveal_strlit("Slack"); }
        "Slack"
    }

    fn describe(&self) -> (r: String)
        ensures
            r@ == "Slack(#"@ + self.default_channel@ + ")"@,
    {
        let mut s = String::new();
        push_str(&mut s, "Slack(#");
        push_str(&mut s, self.default_channel.as_str());
        push_str(&mut s, ")");
        s
    }
}

/// Sends text messages to the `phone` of the metadata.
#[derive(Debug, Clone)]
pub struct SmsChannel {
    pub api_key: String,
}

impl SmsChannel {
    pub fn new(api_key: &str) -> (r: Self)
        ensures
            r.api_key@ == api_key@,
    {
        SmsChannel { api_key: owned(api_key) }
    }

    /// The line that reports the delivery, or the error when the metadata
    /// has no phone number.
    pub fn delivery(&self, ctx: &NotificationContext) -> (r: Result<String, NotificationError>)
        ensures
            ctx.metadata.map().dom().contains("phone"@) ==> (r matches Ok(line) && line@ == "  [SMS] Sending to "@
                + ctx.metadata.map()["phone"@] + ": \""@ + ctx.subject@ + "\""@),
            !ctx.metadata.map().dom().contains("phone"@) ==> (r matches Err(e) && e.channel@ == "SMS"@
                && e.message@ == "No phone number in metadata"@),
    {
        match ctx.metadata.get("phone") {
            None => Err(NotificationError::new("SMS", "No phone number in metadata")),
            Some(phone) => {
                let mut s = String::new();
                push_str(&mut s, "  [SMS] Sending to ");
                push_str(&mut s, phone.as_str());
                push_str(&mut s, ": \"");
                push_str(&mut s, ctx.subject.as_str());
                push_str(&mut s, "\"");
                Ok(s)
            },
        }
    }
}

impl NotificationChannel for SmsChannel {
    fn send(&self, ctx: &NotificationContext) -> (r: Result<(), NotificationError>)
        ensures
            ctx.metadata.map().dom().contains("phone"@) ==> r is Ok,
            !ctx.metadata.map().dom().contains("phone"@) ==> (r matches Err(e) && e.channel@ == "SMS"@
                && e.message@ == "No phone number in metadata"@),
    {
        match self.delivery(ctx) {
            Ok(line) => {
                let _ = write_stdout_line(line.as_str());
                Ok(())
            },
            Err(e) => Err(e),
        }
    }

    open spec fn may_send(&self, ctx: NotificationContext, r: Result<(), NotificationError>) -> bool {
        if ctx.metadata.map().dom().contains("phone"@) {
            r is Ok
        } else {
            r matches Err(e) && e.channel@ == "SMS"@ && e.message@ == "No phone number in metadata"@
        }
    }

    open spec fn may_name(&self, name: Seq<char>) -> bool {
        name == "SMS"@
    }

    fn channel_name(&self) -> (r: &str) {
        proof { reveal_strlit("SMS"); }
        "SMS"
    }

    fn describe(&self) -> (r: String)
        ensures
            r@ == "SMS"@,
    {
        owned("SMS")
    }
}

/// Sends push notifications to the `device_token` of the metadata.
#[derive(Debug, Clone)]
pub struct PushChannel {
    pub app_id: String,
}

impl PushChannel {
    pub fn new(app_id: &str) -> (r: Self)
        ensures
            r.app_id@ == app_id@,
    {
        PushChannel { app_id: owned(app_id) }
    }

    /// The line that reports the delivery, or the error when the metadata
    /// has no device token.
    pub fn delivery(&self, ctx: &NotificationContext) -> (r: Result<String, NotificationError>)
        ensures
            ctx.metadata.map().dom().contains("device_token"@) ==> (r matches Ok(line) && line@
                == "  [Push] Sending to device "@ + ctx.metadata.map()["device_token"@] + ": \""@ + ctx.subject@
                + "\""@),
            !ctx.metadata.map().dom().contains("device_token"@) ==> (r matches Err(e) && e.channel@ == "Push"@
                && e.message@ == "No device_token in metadata"@),
    {
        match ctx.metadata.get("device_token") {
            None => Err(NotificationError::new("Push", "No device_token in metadata")),
            Some(token) => {
                let mut s = String::new();
                push_str(&mut s, "  [Push] Sending to device ");
                push_str(&mut s, token.as_str());
                push_str(&mut s, ": \"");
                push_str(&mut s, ctx.subject.as_str());
                push_str(&mut s, "\"");
                Ok(s)
            },
        }
    }
}

impl NotificationChannel for PushChannel {
    fn send(&self, ctx: &NotificationContext) -> (r: Result<(), NotificationError>)
        ensures
            ctx.metadata.map().dom().contains("device_token"@) ==> r is Ok,
            !ctx.metadata.map().dom().contains("device_token"@) ==> (r matches Err(e) && e.channel@ == "Push"@
                && e.message@ == "No device_token in metadata"@),
    {
        match self.delivery(ctx) {
            Ok(line) => {
                let _ = write_stdout_line(line.as_str());
                Ok(())
            },
            Err(e) => Err(e),
        }
    }

    open spec fn may_send(&self, ctx: NotificationContext, r: Result<(), NotificationError>) -> bool {
        if ctx.metadata.map().dom().contains("device_token"@) {
            r is Ok
        } else {
            r matches Err(e) && e.channel@ == "Push"@ && e.message@ == "No device_token in metadata"@
        }
    }

    open spec fn may_name(&self, name: Seq<char>) -> bool {
        name == "Push"@
    }

    fn channel_name(&self) -> (r: &str) {
        proof { reveal_strlit("Push"); }
        "Push"
    }

    fn describe(&self) -> (r: String)
        ensures
            r@ == "Push("@ + self.app_id@ + ")"@,
    {
        let mut s = String::new();
        push_str(&mut s, "Push(");
        push_str(&mut s, self.app_id.as_str());
        push_str(&mut s, ")");
        s
    }
}

/// The names of the deliveries to `e` that succeeded, in registration order.
pub open spec fn delivered(events: Seq<Event>, e: Event, outs: Seq<Result<Seq<char>, NotificationError>>) -> Seq<Seq<char>>
    decreases events.len(),
{
    if events.len() == 0 || outs.len() == 0 {
        Seq::empty()
    } else {
        let rest = delivered(events.drop_last(), e, outs.drop_last());
        if events.last() == e {
            match outs.last() {
                Ok(n) => rest.push(n),
                Err(_) => rest,
            }
        } else {
            rest
        }
    }
}

/// The errors of the deliveries to `e` that failed, in registration order.
pub open spec fn undelivered(events: Seq<Event>, e: Event, outs: Seq<Result<Seq<char>, NotificationError>>) -> Seq<NotificationError>
    decreases events.len(),
{
    if events.len() == 0 || outs.len() == 0 {
        Seq::empty()
    } else {
        let rest = undelivered(events.drop_last(), e, outs.drop_last());
        if events.last() == e {
            match outs.last() {
                Ok(_) => rest,
                Err(x) => rest.push(x),
            }
        } else {
            rest
        }
    }
}

/// How many routes go to `e`.
pub open spec fn routes_to(events: Seq<Event>, e: Event) -> nat
    decreases events.len(),
{
    if events.len() == 0 {
        0
    } else {
        routes_to(events.drop_last(), e) + if events.last() == e { 1nat } else { 0nat }
    }
}

/// How many of the positions `j0 .. j` of `events` hold `e`.
pub open spec fn count_between(events: Seq<Event>, e: Event, j0: int, j: int) -> nat
    decreases j - j0,
{
    if j <= j0 {
        0
    } else {
        count_between(events, e, j0, j - 1) + if events[j - 1] == e { 1nat } else { 0nat }
    }
}

/// The descriptions at the positions `j0 .. j` that hold `e`, joined by `, `.
pub open spec fn joined_descriptions(events: Seq<Event>, descs: Seq<Seq<char>>, e: Event, j0: int, j: int) -> Seq<char>
    decreases j - j0,
{
    if j <= j0 {
        Seq::empty()
    } else {
        let prev = joined_descriptions(events, descs, e, j0, j - 1);
        if events[j - 1] == e {
            if count_between(events, e, j0, j - 1) == 0 {
                descs[j - 1]
            } else {
                prev + ", "@ + descs[j - 1]
            }
        } else {
            prev
        }
    }
}

/// The route lines of the registrations before position `i`: a line for each
/// event at its first registration, with the descriptions of all its channels.
pub open spec fn route_lines(events: Seq<Event>, descs: Seq<Seq<char>>, i: int) -> Seq<char>
    decreases i,
{
    if i <= 0 {
        Seq::empty()
    } else {
        let prev = route_lines(events, descs, i - 1);
        let e = events[i - 1];
        if events.take(i - 1).contains(e) {
            prev
        } else {
            prev + "\n  "@ + event_name(e) + " -> ["@ + joined_descriptions(events, descs, e, i - 1, events.len() as int)
                + "]"@
        }
    }
}

/// The joined descriptions do not read a position outside `j0 .. j` or
/// holding another event.
pub proof fn lemma_joined_frame(events: Seq<Event>, descs: Seq<Seq<char>>, e: Event, j0: int, j: int, p: int, v: Seq<char>)
    requires
        0 <= j0,
        j <= descs.len(),
        0 <= p < descs.len(),
        !(j0 <= p < j) || events[p] != e,
    ensures
        joined_descriptions(events, descs.update(p, v), e, j0, j) == joined_descriptions(events, descs, e, j0, j),
    decreases j - j0,
{
    if j > j0 {
        lemma_joined_frame(events, descs, e, j0, j - 1, p, v);
        if events[j - 1] == e {
            assert(p != j - 1);
            assert(descs.update(p, v)[j - 1] == descs[j - 1]);
        }
    }
}

/// With no registration of `e` among `j0 .. j`, nothing is joined.
pub proof fn lemma_joined_none(events: Seq<Event>, descs: Seq<Seq<char>>, e: Event, j0: int, j: int)
    requires
        count_between(events, e, j0, j) == 0,
    ensures
        joined_descriptions(events, descs, e, j0, j) == Seq::<char>::empty(),
    decreases j - j0,
{
    if j > j0 {
        lemma_joined_none(events, descs, e, j0, j - 1);
    }
}

/// The route lines before `i` read only the descriptions of events that
/// occur before `i`.
pub proof fn lemma_route_lines_frame(events: Seq<Event>, d1: Seq<Seq<char>>, d2: Seq<Seq<char>>, i: int)
    requires
        d1.len() == events.len(),
        d2.len() == events.len(),
        0 <= i <= events.len(),
        forall|p: int| 0 <= p < events.len() && d1[p] != d2[p] ==> !events.take(i).contains(#[trigger] events[p]),
    ensures
        route_lines(events, d2, i) == route_lines(events, d1, i),
    decreases i,
{
    if i > 0 {
        assert forall|p: int| 0 <= p < events.len() && d1[p] != d2[p] implies !events.take(i - 1).contains(#[trigger] events[p]) by {
            if events.take(i - 1).contains(events[p]) {
                let q = choose|q: int| 0 <= q < i - 1 && #[trigger] events.take(i - 1)[q] == events[p];
                assert(events.take(i)[q] == events[p]);
            }
        }
        lemma_route_lines_frame(events, d1, d2, i - 1);
        let e = events[i - 1];
        if !events.take(i - 1).contains(e) {
            assert forall|p: int| 0 <= p < events.len() && events[p] == e implies #[trigger] d1[p] == d2[p] by {
                if d1[p] != d2[p] {
                    assert(events.take(i)[i - 1] == events[p]);
                }
            }
            lemma_joined_agree(events, d1, d2, e, i - 1, events.len() as int);
        }
    }
}

/// Descriptions that agree wherever `e` is registered give the same joined text.
pub proof fn lemma_joined_agree(events: Seq<Event>, d1: Seq<Seq<char>>, d2: Seq<Seq<char>>, e: Event, j0: int, j: int)
    requires
        d1.len() == events.len(),
        d2.len() == events.len(),
        0 <= j0,
        j <= events.len(),
        forall|p: int| 0 <= p < events.len() && events[p] == e ==> #[trigger] d1[p] == d2[p],
    ensures
        joined_descriptions(events, d2, e, j0, j) == joined_descriptions(events, d1, e, j0, j),
    decreases j - j0,
{
    if j > j0 {
        lemma_joined_agree(events, d1, d2, e, j0, j - 1);
        if events[j - 1] == e {
            assert(d1[j - 1] == d2[j - 1]);
        }
    }
}

/// Routes events to channels: each registration sends one event to one
/// channel, and an event goes to its channels in the order they were
/// registered. `C` is the type of channel kept, most often
/// `dyn NotificationChannel`.
pub struct NotificationDispatcher<C: NotificationChannel + ?Sized> {
    events: Vec<Event>,
    channels: Vec<Box<C>>,
}

impl<C: NotificationChannel + ?Sized> NotificationDispatcher<C> {
    /// The event of each registration, in order.
    pub closed spec fn routes(&self) -> Seq<Event> {
        self.events@
    }

    pub closed spec fn wf(&self) -> bool {
        self.events@.len() == self.channels@.len()
    }

    pub fn new() -> (r: Self)
        ensures
            r.wf(),
            r.routes() == Seq::<Event>::empty(),
    {
        NotificationDispatcher { events: Vec::new(), channels: Vec::new() }
    }

    /// Sends `event` to `channel` too.
    pub fn register(&mut self, event: Event, channel: Box<C>)
        requires
            old(self).wf(),
        ensures
            final(self).wf(),
            final(self).routes() == old(self).routes().push(event),
    {
        self.events.push(event);
        self.channels.push(channel);
    }

    /// Sends each of `events` to a channel of its own made by `channel_factory`.
    pub fn register_for_events<F: Fn() -> Box<C>>(&mut self, events: &[Event], channel_factory: F)
        requires
            old(self).wf(),
            channel_factory.requires(()),
        ensures
            final(self).wf(),
            final(self).routes() == old(self).routes() + events@,
    {
        let mut i: usize = 0;
        while i < events.len()
            invariant
                self.wf(),
                0 <= i <= events@.len(),
                channel_factory.requires(()),
                self.routes() == old(self).routes() + events@.take(i as int),
            decreases events@.len() - i,
        {
            let c = channel_factory();
            self.register(events[i], c);
            proof {
                assert(events@.take(i + 1) == events@.take(i as int).push(events@[i as int]));
            }
            i = i + 1;
        }
        proof {
            assert(events@.take(i as int) == events@);
        }
    }

    /// `outs` holds, for each registration of `ctx`'s event, what its
    /// channel may have answered: the channel's name on success, the error
    /// on failure.
    pub closed spec fn outcomes_fit(&self, ctx: NotificationContext, outs: Seq<Result<Seq<char>, NotificationError>>) -> bool {
        &&& outs.len() == self.events@.len()
        &&& forall|j: int| 0 <= j < outs.len() && self.events@[j] == ctx.event ==> match #[trigger] outs[j] {
            Ok(n) => self.channels@[j].may_send(ctx, Ok(())) && self.channels@[j].may_name(n),
            Err(e) => self.channels@[j].may_send(ctx, Err(e)),
        }
    }

    /// Sends `ctx` through every channel registered for its event, in the
    /// order of registration; each delivery is counted as a success, under
    /// the channel's name, or a failure, with its error.
    pub fn dispatch(&self, ctx: &NotificationContext) -> (r: DispatchReport)
        requires
            self.wf(),
        ensures
            r.event == ctx.event,
            r.successes@.len() + r.failures@.len() == routes_to(self.routes(), ctx.event),
            exists|outs: Seq<Result<Seq<char>, NotificationError>>| #[trigger] self.outcomes_fit(*ctx, outs)
                && r.successes@.map_values(|n: String| n@) == delivered(self.routes(), ctx.event, outs)
                && r.failures@ == undelivered(self.routes(), ctx.event, outs),
    {
        let mut successes: Vec<String> = Vec::new();
        let mut failures: Vec<NotificationError> = Vec::new();
        let ghost mut outs: Seq<Result<Seq<char>, NotificationError>> = Seq::empty();
        let mut i: usize = 0;
        while i < self.events.len()
            invariant
                self.wf(),
                0 <= i <= self.events@.len(),
                successes@.len() + failures@.len() == routes_to(self.events@.take(i as int), ctx.event),
                outs.len() == i,
                forall|j: int| 0 <= j < i && self.events@[j] == ctx.event ==> match #[trigger] outs[j] {
                    Ok(n) => self.channels@[j].may_send(*ctx, Ok(())) && self.channels@[j].may_name(n),
                    Err(e) => self.channels@[j].may_send(*ctx, Err(e)),
                },
                successes@.map_values(|n: String| n@) == delivered(self.events@.take(i as int), ctx.event, outs),
                failures@ == undelivered(self.events@.take(i as int), ctx.event, outs),
            decreases self.events@.len() - i,
        {
            proof {
                assert(self.events@.take(i + 1).drop_last() == self.events@.take(i as int));
                assert(self.events@.take(i + 1).last() == self.events@[i as int]);
            }
            let ghost o0 = outs;
            let ghost s0 = successes@;
            if self.events[i] == ctx.event {
                let channel = &self.channels[i];
                let res = channel.send(ctx);
                let ghost resg = res;
                match res {
                    Ok(()) => {
                        let cn = channel.channel_name();
                        let name = owned(cn);
                        assert(resg == Ok::<(), NotificationError>(())) by {
                            match resg {
                                Ok(u) => {
                                    assert(u == ());
                                },
                                Err(_) => {},
                            }
                        }
                        assert(self.channels@[i as int].may_send(*ctx, Ok(())));
                        assert(self.channels@[i as int].may_name(name@));
                        proof {
                            outs = outs.push(Ok(name@));
                        }
                        successes.push(name);
                        assert(successes@.map_values(|n: String| n@) =~= s0.map_values(|n: String| n@).push(name@));
                    },
                    Err(e) => {
                        assert(self.channels@[i as int].may_send(*ctx, Err(e)));
                        proof {
                            outs = outs.push(Err(e));
                        }
                        failures.push(e);
                    },
                }
            } else {
                proof {
                    outs = outs.push(Ok(Seq::empty()));
                }
            }
            proof {
                assert(outs.drop_last() == o0);
                assert forall|j: int| 0 <= j < i + 1 && self.events@[j] == ctx.event implies match #[trigger] outs[j] {
                    Ok(n) => self.channels@[j].may_send(*ctx, Ok(())) && self.channels@[j].may_name(n),
                    Err(e) => self.channels@[j].may_send(*ctx, Err(e)),
                } by {
                    if j < i {
                        assert(outs[j] == o0[j]);
                    }
                }
            }
            i = i + 1;
        }
        proof {
            assert(self.events@.take(i as int) == self.events@);
            assert(self.outcomes_fit(*ctx, outs));
        }
        DispatchReport { event: ctx.event, successes, failures }
    }

    /// `Notification routes:`, then a line for each event that has channels,
    /// in the order of their first registration: the event and its
    /// channels' descriptions.
    ///
    /// The descriptions are what the channels' own `describe` gives (the
    /// trait is for users to implement): one for each registration.
    pub fn routes_description(&self) -> (r: String)
        requires
            self.wf(),
        ensures
            exists|descs: Seq<Seq<char>>| descs.len() == self.routes().len()
                && r@ == "Notification routes:"@ + #[trigger] route_lines(self.routes(), descs, self.routes().len() as int),
    {
        let ghost events = self.events@;
        let ghost mut descs: Seq<Seq<char>> = Seq::new(events.len(), |p: int| Seq::<char>::empty());
        let mut s = String::new();
        push_str(&mut s, "Notification routes:");
        let mut seen: Vec<Event> = Vec::new();
        let mut i: usize = 0;
        while i < self.events.len()
            invariant
                self.wf(),
                events == self.events@,
                0 <= i <= self.events@.len(),
                descs.len() == events.len(),
                s@ == "Notification routes:"@ + route_lines(events, descs, i as int),
                forall|ev: Event| seen@.contains(ev) <==> events.take(i as int).contains(ev),
            decreases self.events@.len() - i,
        {
            let e = self.events[i];
            let mut known = false;
            let mut k: usize = 0;
            while k < seen.len()
                invariant
                    0 <= k <= seen@.len(),
                    known == seen@.take(k as int).contains(e),
                decreases seen@.len() - k,
            {
                proof {
                    assert(seen@.take(k + 1) =~= seen@.take(k as int).push(seen@[k as int]));
                }
                if seen[k] == e {
                    known = true;
                }
                proof {
                    if seen@.take(k + 1).contains(e) && seen@[k as int] != e {
                        let q = choose|q: int| 0 <= q < k + 1 && #[trigger] seen@.take(k + 1)[q] == e;
                        assert(seen@.take(k as int)[q] == e);
                    }
                    if seen@.take(k as int).contains(e) {
                        let q = choose|q: int| 0 <= q < k && #[trigger] seen@.take(k as int)[q] == e;
                        assert(seen@.take(k + 1)[q] == e);
                    }
                    if seen@[k as int] == e {
                        assert(seen@.take(k + 1)[k as int] == e);
                    }
                }
                k = k + 1;
            }
            proof {
                assert(seen@.take(k as int) =~= seen@);
                assert(events.take(i + 1) =~= events.take(i as int).push(e));
                assert(events.take(i + 1).drop_last() =~= events.take(i as int));
            }
            let ghost seen0 = seen@;
            if !known {
                let ghost descs0 = descs;
                let ghost s0 = s@;
                seen.push(e);
                push_str(&mut s, "\n  ");
                let name = e.to_string();
                push_str(&mut s, name.as_str());
                push_str(&mut s, " -> [");
                let ghost head = s@;
                let mut first = true;
                let mut j: usize = i;
                while j < self.events.len()
                    invariant
                        self.wf(),
                        events == self.events@,
                        e == events[i as int],
                        !events.take(i as int).contains(e),
                        i <= j <= self.events@.len(),
                        descs.len() == events.len(),
                        first == (count_between(events, e, i as int, j as int) == 0),
                        s@ == head + joined_descriptions(events, descs, e, i as int, j as int),
                        forall|p: int| 0 <= p < events.len() && events[p] != e ==> #[trigger] descs[p] == descs0[p],
                        forall|p: int| 0 <= p < i ==> #[trigger] descs[p] == descs0[p],
                    decreases self.events@.len() - j,
                {
                    if self.events[j] == e {
                        if !first {
                            push_str(&mut s, ", ");
                        }
                        first = false;
                        let d = self.channels[j].describe();
                        proof {
                            if count_between(events, e, i as int, j as int) == 0 {
                                lemma_joined_none(events, descs, e, i as int, j as int);
                            }
                            lemma_joined_frame(events, descs, e, i as int, j as int, j as int, d@);
                            descs = descs.update(j as int, d@);
                        }
                        push_str(&mut s, d.as_str());
                    }
                    j = j + 1;
                }
                push_str(&mut s, "]");
                proof {
                    assert forall|p: int| 0 <= p < events.len() && descs[p] != descs0[p]
                        implies !events.take(i as int).contains(#[trigger] events[p]) by {
                        assert(events[p] == e);
                    }
                    lemma_route_lines_frame(events, descs0, descs, i as int);
                    assert(s@ =~= "Notification routes:"@ + route_lines(events, descs, i + 1));
                }
            } else {
                proof {
                    assert(s@ =~= "Notification routes:"@ + route_lines(events, descs, i + 1));
                }
            }
            proof {
                assert forall|ev: Event| seen@.contains(ev) <==> events.take(i + 1).contains(ev) by {
                    if events.take(i + 1).contains(ev) && ev != e {
                        let q = choose|q: int| 0 <= q < i + 1 && #[trigger] events.take(i + 1)[q] == ev;
                        assert(events.take(i as int)[q] == ev);
                    }
                    if events.take(i as int).contains(ev) {
                        let q = choose|q: int| 0 <= q < i && #[trigger] events.take(i as int)[q] == ev;
                        assert(events.take(i + 1)[q] == ev);
                    }
                    if ev == e {
                        assert(events.take(i + 1)[i as int] == e);
                    }
                    if !known {
                        assert(seen@ == seen0.push(e));
                        if seen@.contains(ev) && ev != e {
                            let q = choose|q: int| 0 <= q < seen@.len() && #[trigger] seen@[q] == ev;
                            assert(seen0[q] == ev);
                        }
                        if seen0.contains(ev) {
                            let q = choose|q: int| 0 <= q < seen0.len() && #[trigger] seen0[q] == ev;
                            assert(seen@[q] == ev);
                        }
                        assert(seen@[seen0.len() as int] == e);
                    }
                }
            }
            i = i + 1;
        }
        assert(s@ == "Notification routes:"@ + route_lines(self.routes(), descs, self.routes().len() as int));
        s
    }

    /// Prints the routes to standard output.
    pub fn describe_routes(&self)
        requires
            self.wf(),
    {
        let text = self.routes_description();
        let _ = write_stdout_line(text.as_str());
    }
}

} // verus!
