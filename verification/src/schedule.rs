//! The daily upload window: what a tick of the clock starts or stops, and
//! the rule that each window notification goes out at most once a day.
use vstd::prelude::*;
use crate::models::ScheduledUpload;
use crate::text::{chars_eq, chars_of, decimal, push_decimal, push_str, str_eq};

verus! {

/// `n` with at least two digits ("{:02}").
pub open spec fn two_digits(n: nat) -> Seq<char> {
    if n < 10 {
        seq!['0'] + decimal(n)
    } else {
        decimal(n)
    }
}

/// The clock reading compared with the window: "HH:MM".
pub open spec fn clock_text_of(hour: nat, minute: nat) -> Seq<char> {
    two_digits(hour) + seq![':'] + two_digits(minute)
}

fn push_two_digits(s: &mut String, n: u32)
    ensures
        final(s)@ == old(s)@ + two_digits(n as nat),
{
    if n < 10 {
        s.push('0');
    }
    push_decimal(s, n as u128);
}

/// The clock reading "HH:MM" of `hour` and `minute`.
pub fn clock_text(hour: u32, minute: u32) -> (r: String)
    ensures
        r@ == clock_text_of(hour as nat, minute as nat),
{
    let mut r = String::new();
    push_two_digits(&mut r, hour);
    r.push(':');
    push_two_digits(&mut r, minute);
    r
}

/// What one tick of the window's clock does.
pub struct ScheduleTick {
    /// Start the uploader (after clearing the stop flag).
    pub start_upload: bool,
    /// Send the window-start notification, if enabled.
    pub notify_start: bool,
    /// Ask the uploader to stop after the current task.
    pub stop_after_current: bool,
    /// Send the window-end notification, if enabled.
    pub notify_stop: bool,
}

/// The window is switched on.
pub open spec fn window_enabled(schedule: Option<ScheduledUpload>) -> bool {
    match schedule {
        Some(s) => s.enabled,
        None => false,
    }
}

/// A tick at the clock reading `now` ("HH:MM"): with an enabled window, at
/// its start the uploader is started and the start announced when it is
/// idle and something is pending; at its end the uploader is asked to stop
/// after the current task, and the end is announced when something is
/// still pending or uploading.
pub fn schedule_tick(
    schedule: &Option<ScheduledUpload>,
    now: &str,
    uploading: bool,
    has_pending: bool,
    has_remaining: bool,
) -> (r: ScheduleTick)
    ensures
        !window_enabled(*schedule) ==> !r.start_upload && !r.notify_start && !r.stop_after_current && !r.notify_stop,
        window_enabled(*schedule) ==> ({
            let s = schedule->0;
            &&& r.start_upload == (now@ == s.start_time@ && !uploading && has_pending)
            &&& r.notify_start == r.start_upload
            &&& r.stop_after_current == (now@ == s.end_time@)
            &&& r.notify_stop == (now@ == s.end_time@ && has_remaining)
        }),
{
    match schedule {
        Some(s) => {
            if !s.enabled {
                return ScheduleTick { start_upload: false, notify_start: false, stop_after_current: false, notify_stop: false };
            }
            let at_start = str_eq(now, s.start_time.as_str());
            let at_end = str_eq(now, s.end_time.as_str());
            let start = at_start && !uploading && has_pending;
            ScheduleTick {
                start_upload: start,
                notify_start: start,
                stop_after_current: at_end,
                notify_stop: at_end && has_remaining,
            }
        },
        None => ScheduleTick { start_upload: false, notify_start: false, stop_after_current: false, notify_stop: false },
    }
}

/// Whether the window wants the notification for `event_type`: "start" and
/// "stop" follow their switches; no other event is notified.
pub fn event_notification_enabled(schedule: &ScheduledUpload, event_type: &str) -> (r: bool)
    ensures
        r == ((event_type@ == "start"@ && schedule.notify_on_start) || (event_type@ == "stop"@
            && schedule.notify_on_stop)),
{
    proof {
        reveal_strlit("start");
        reveal_strlit("stop");
        assert("start"@.len() != "stop"@.len());
    }
    if str_eq(event_type, "start") {
        schedule.notify_on_start
    } else if str_eq(event_type, "stop") {
        schedule.notify_on_stop
    } else {
        false
    }
}

/// The key of an event on a day: "date|event".
pub open spec fn event_key(date: Seq<char>, event_type: Seq<char>) -> Seq<char> {
    date + seq!['|'] + event_type
}

/// The last window events notified: one slot for starts, one for the rest.
pub struct ScheduleEvents {
    pub last_start_event: Option<String>,
    pub last_stop_event: Option<String>,
}

/// The two slots as character sequences: the last start event and the
/// last other event.
pub open spec fn events_view(e: ScheduleEvents) -> (Option<Seq<char>>, Option<Seq<char>>) {
    (
        match e.last_start_event {
            Some(k) => Some(k@),
            None => None,
        },
        match e.last_stop_event {
            Some(k) => Some(k@),
            None => None,
        },
    )
}

/// The slot an event is remembered in: starts in the first, the rest in the
/// second.
pub open spec fn slot_of(v: (Option<Seq<char>>, Option<Seq<char>>), event_type: Seq<char>) -> Option<Seq<char>> {
    if event_type == "start"@ {
        v.0
    } else {
        v.1
    }
}

/// The slots after the event `event_type` on `date` is remembered.
pub open spec fn remembered(v: (Option<Seq<char>>, Option<Seq<char>>), date: Seq<char>, event_type: Seq<char>) -> (
    Option<Seq<char>>,
    Option<Seq<char>>,
) {
    if event_type == "start"@ {
        (Some(event_key(date, event_type)), v.1)
    } else {
        (v.0, Some(event_key(date, event_type)))
    }
}

/// The event `event_type` on `date` is notified: it is not the last one
/// remembered in its slot.
pub open spec fn sends(v: (Option<Seq<char>>, Option<Seq<char>>), date: Seq<char>, event_type: Seq<char>) -> bool {
    slot_of(v, event_type) != Some(event_key(date, event_type))
}

impl ScheduleEvents {
    /// Nothing notified yet.
    pub fn new() -> (r: Self)
        ensures
            r.last_start_event is None,
            r.last_stop_event is None,
    {
        ScheduleEvents { last_start_event: None, last_stop_event: None }
    }

    /// Whether the event `event_type` on `date` is to be notified (see
    /// `sends`); it is remembered either way.
    pub fn should_send(&mut self, date: &str, event_type: &str) -> (send: bool)
        ensures
            send == sends(events_view(*old(self)), date@, event_type@),
            events_view(*final(self)) == remembered(events_view(*old(self)), date@, event_type@),
    {
        let mut key = String::new();
        push_str(&mut key, date);
        key.push('|');
        push_str(&mut key, event_type);
        assert(key@ =~= event_key(date@, event_type@));
        let kv = chars_of(key.as_str());
        let is_start = str_eq(event_type, "start");
        let same = if is_start {
            match &self.last_start_event {
                Some(k) => chars_eq(&chars_of(k.as_str()), &kv),
                None => false,
            }
        } else {
            match &self.last_stop_event {
                Some(k) => chars_eq(&chars_of(k.as_str()), &kv),
                None => false,
            }
        };
        if same {
            return false;
        }
        if is_start {
            self.last_start_event = Some(key);
        } else {
            self.last_stop_event = Some(key);
        }
        true
    }
}

/// A window event is notified at most once a day: once it has been
/// remembered, the same event on the same day is not sent again.
pub proof fn law_event_sent_once_a_day(v: (Option<Seq<char>>, Option<Seq<char>>), date: Seq<char>, event_type: Seq<char>)
    ensures
        !sends(remembered(v, date, event_type), date, event_type),
{
}

/// On another day the same event is sent again.
pub proof fn law_event_sent_again_next_day(
    v: (Option<Seq<char>>, Option<Seq<char>>),
    date: Seq<char>,
    next: Seq<char>,
    event_type: Seq<char>,
)
    requires
        next != date,
    ensures
        sends(remembered(v, date, event_type), next, event_type),
{
    let k1 = event_key(date, event_type);
    let k2 = event_key(next, event_type);
    if k1 == k2 {
        assert(k1.len() == date.len() + 1 + event_type.len());
        assert(k2.len() == next.len() + 1 + event_type.len());
        assert(date.len() == next.len());
        assert(date =~= k1.take(date.len() as int));
        assert(next =~= k2.take(next.len() as int));
    }
}

/// Remembering an event leaves the other slot alone: a start does not hide
/// the day's end, nor the end the day's start.
pub proof fn law_slots_independent(
    v: (Option<Seq<char>>, Option<Seq<char>>),
    date: Seq<char>,
    event_type: Seq<char>,
    other: Seq<char>,
)
    requires
        (event_type == "start"@) != (other == "start"@),
    ensures
        slot_of(remembered(v, date, event_type), other) == slot_of(v, other),
{
}

} // verus!
