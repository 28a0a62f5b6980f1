use crate::category::GhostCategory;
use crate::hauntings::{Event, EventView};
use crate::text::{decimal, integer_text};
use vstd::prelude::*;

verus! {

/// The small print under a notification.
#[derive(Debug)]
pub struct Footer {
    pub text: String,
}

/// One notification as subscribers see it: a title, a footer and the time of the event.
#[derive(Debug)]
pub struct Embed {
    pub title: String,
    pub footer: Footer,
    pub timestamp: String,
}

/// A notification as a mathematical value.
pub ghost struct EmbedView {
    pub title: Seq<char>,
    pub footer: Seq<char>,
    pub timestamp: Seq<char>,
}

impl View for Embed {
    type V = EmbedView;

    open spec fn view(&self) -> EmbedView {
        EmbedView { title: self.title@, footer: self.footer.text@, timestamp: self.timestamp@ }
    }
}

/// The views of a sequence of notifications, in order.
pub open spec fn embed_views(v: Seq<Embed>) -> Seq<EmbedView> {
    v.map_values(|e: Embed| e@)
}

/// What is sent to a subscriber in one request: a batch of notifications.
#[derive(Debug)]
pub struct WebhookPayload<'a> {
    pub embeds: &'a [Embed],
}

impl<'a> WebhookPayload<'a> {
    /// The payload that carries `embeds`.
    pub fn new(embeds: &'a [Embed]) -> (payload: WebhookPayload<'a>)
        ensures
            payload.embeds@ == embeds@,
    {
        WebhookPayload { embeds }
    }
}

/// The footer of a notification: season and day, both counted from one, and the
/// ghost's origin.
pub open spec fn footer_text(season: int, day: int, category: GhostCategory) -> Seq<char> {
    "Season "@ + integer_text(season + 1) + " Day "@ + integer_text(day + 1) + " • Origin: "@
        + category.label()
}

/// The notification for an event whose ghost is of the given category.
pub open spec fn embed_of(event: EventView, category: GhostCategory) -> EmbedView {
    EmbedView {
        title: event.description,
        footer: footer_text(event.season, event.day, category),
        timestamp: event.created,
    }
}

/// Formats an event as a notification: the description as the title, the time of
/// creation as the timestamp, and season, day and origin in the footer.
pub fn format_event(event: &Event, category: GhostCategory) -> (embed: Embed)
    ensures
        embed@ == embed_of(event@, category),
{
    let mut text = String::from_str("Season ");
    let season = decimal(event.season as i128 + 1);
    text.append(season.as_str());
    text.append(" Day ");
    let day = decimal(event.day as i128 + 1);
    text.append(day.as_str());
    text.append(" • Origin: ");
    let origin = category.to_string();
    text.append(origin.as_str());
    assert(text@ =~= footer_text(event@.season, event@.day, category));
    Embed {
        title: event.description.clone(),
        footer: Footer { text },
        timestamp: event.created.clone(),
    }
}

} // verus!
