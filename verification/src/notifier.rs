//! Discord webhook payloads and what the answer to one means.

use vstd::prelude::*;

use crate::text::{blank, from_chars, is_blank, is_space, opt_view, seq_view, to_chars};

verus! {

/// Bytes of an error body that are worth keeping.
pub const MAX_ERROR_BODY: usize = 512;

// Discord counts message limits in characters, not bytes, so every cap here is
// applied over characters.
pub const MAX_CONTENT: usize = 2000;

pub const MAX_EMBED_TITLE: usize = 256;

// Discord allows 4096 here. The lower cap is deliberate: a postmortem runs to
// thousands of characters, and the incident link is the authoritative copy.
pub const MAX_EMBED_DESCRIPTION: usize = 1500;

pub const MAX_FIELD_NAME: usize = 256;

pub const MAX_FIELD_VALUE: usize = 1024;

pub const MAX_FOOTER_TEXT: usize = 2048;

pub const MAX_USERNAME: usize = 80;

/// Why a notification did not arrive.
#[derive(Debug)]
pub enum NotifyError<S = String> {
    /// The request itself failed.
    Request(S),
    /// The webhook answered with something other than success.
    Status { status: u16, body: S },
}

impl View for NotifyError {
    type V = NotifyError<Seq<char>>;

    open spec fn view(&self) -> NotifyError<Seq<char>> {
        match self {
            NotifyError::Request(reason) => NotifyError::Request(reason@),
            NotifyError::Status { status, body } => NotifyError::Status {
                status: *status,
                body: body@,
            },
        }
    }
}

// ---------------------------------------------------------------------------
// The payload
// ---------------------------------------------------------------------------
/// A Discord webhook execution payload. Every constructor enforces Discord's
/// length limits.
#[derive(Debug, PartialEq)]
pub struct DiscordMessage {
    pub content: Option<String>,
    pub username: Option<String>,
    pub avatar_url: Option<String>,
    pub embeds: Vec<Embed>,
}

#[derive(Debug, PartialEq)]
pub struct Embed {
    pub title: String,
    pub url: Option<String>,
    pub description: Option<String>,
    pub color: u32,
    pub fields: Vec<EmbedField>,
    pub footer: Option<EmbedFooter>,
    pub timestamp: Option<String>,
}

#[derive(Debug, PartialEq)]
pub struct EmbedField {
    pub name: String,
    pub value: String,
    pub inline: bool,
}

#[derive(Debug, PartialEq)]
pub struct EmbedFooter {
    pub text: String,
}

pub struct MessageView {
    pub content: Option<Seq<char>>,
    pub username: Option<Seq<char>>,
    pub avatar_url: Option<Seq<char>>,
    pub embeds: Seq<EmbedView>,
}

pub struct EmbedView {
    pub title: Seq<char>,
    pub url: Option<Seq<char>>,
    pub description: Option<Seq<char>>,
    pub color: u32,
    pub fields: Seq<FieldView>,
    pub footer: Option<Seq<char>>,
    pub timestamp: Option<Seq<char>>,
}

pub struct FieldView {
    pub name: Seq<char>,
    pub value: Seq<char>,
    pub inline: bool,
}

impl View for DiscordMessage {
    type V = MessageView;

    open spec fn view(&self) -> MessageView {
        MessageView {
            content: opt_view(self.content),
            username: opt_view(self.username),
            avatar_url: opt_view(self.avatar_url),
            embeds: seq_view(self.embeds@),
        }
    }
}

impl View for Embed {
    type V = EmbedView;

    open spec fn view(&self) -> EmbedView {
        EmbedView {
            title: self.title@,
            url: opt_view(self.url),
            description: opt_view(self.description),
            color: self.color,
            fields: seq_view(self.fields@),
            footer: opt_view(self.footer),
            timestamp: opt_view(self.timestamp),
        }
    }
}

impl View for EmbedField {
    type V = FieldView;

    open spec fn view(&self) -> FieldView {
        FieldView { name: self.name@, value: self.value@, inline: self.inline }
    }
}

impl View for EmbedFooter {
    type V = Seq<char>;

    open spec fn view(&self) -> Seq<char> {
        self.text@
    }
}

/// `text`, cut to `max` characters, the last of which is then an ellipsis.
pub open spec fn cut(text: Seq<char>, max: int) -> Seq<char> {
    if text.len() <= max {
        text
    } else if max <= 0 {
        seq!['…']
    } else {
        text.take(max - 1).push('…')
    }
}

/// The payload of a plain text message.
pub open spec fn text_message(content: Seq<char>) -> MessageView {
    MessageView {
        content: Some(cut(content, MAX_CONTENT as int)),
        username: None,
        avatar_url: None,
        embeds: Seq::empty(),
    }
}

/// The payload of a single embed.
pub open spec fn embed_message(embed: EmbedView) -> MessageView {
    MessageView { content: None, username: None, avatar_url: None, embeds: seq![embed] }
}

/// An embed with a title and a colour and nothing else.
pub open spec fn titled(title: Seq<char>, color: u32) -> EmbedView {
    EmbedView {
        title: cut(title, MAX_EMBED_TITLE as int),
        url: None,
        description: None,
        color,
        fields: Seq::empty(),
        footer: None,
        timestamp: None,
    }
}

impl MessageView {
    pub open spec fn with_identity(
        self,
        username: Seq<char>,
        avatar_url: Option<Seq<char>>,
    ) -> MessageView {
        MessageView { username: Some(cut(username, MAX_USERNAME as int)), avatar_url, ..self }
    }

    /// Within every limit that the constructors enforce.
    pub open spec fn within_limits(self) -> bool {
        &&& self.content matches Some(content) ==> content.len() <= MAX_CONTENT
        &&& self.username matches Some(username) ==> username.len() <= MAX_USERNAME
        &&& forall|i: int|
            0 <= i < self.embeds.len() ==> (#[trigger] self.embeds[i]).within_limits()
    }
}

impl EmbedView {
    /// A blank link is left out: Discord rejects a payload with an empty one.
    pub open spec fn with_url(self, url: Seq<char>) -> EmbedView {
        if is_blank(url) {
            self
        } else {
            EmbedView { url: Some(url), ..self }
        }
    }

    /// A blank description is left out, as a blank link is.
    pub open spec fn with_description(self, description: Seq<char>) -> EmbedView {
        if is_blank(description) {
            self
        } else {
            EmbedView {
                description: Some(cut(description, MAX_EMBED_DESCRIPTION as int)),
                ..self
            }
        }
    }

    pub open spec fn with_field(
        self,
        name: Seq<char>,
        value: Seq<char>,
        inline: bool,
    ) -> EmbedView {
        EmbedView {
            fields: self.fields.push(
                FieldView {
                    name: cut(name, MAX_FIELD_NAME as int),
                    value: cut(value, MAX_FIELD_VALUE as int),
                    inline,
                },
            ),
            ..self
        }
    }

    pub open spec fn with_footer(self, text: Seq<char>) -> EmbedView {
        EmbedView { footer: Some(cut(text, MAX_FOOTER_TEXT as int)), ..self }
    }

    pub open spec fn with_timestamp(self, timestamp: Seq<char>) -> EmbedView {
        EmbedView { timestamp: Some(timestamp), ..self }
    }

    /// Within every limit that the constructors enforce, with neither a blank link
    /// nor a blank description.
    pub open spec fn within_limits(self) -> bool {
        &&& self.title.len() <= MAX_EMBED_TITLE
        &&& self.url matches Some(url) ==> !is_blank(url)
        &&& self.description matches Some(text) ==> !is_blank(text) && text.len()
            <= MAX_EMBED_DESCRIPTION
        &&& self.footer matches Some(text) ==> text.len() <= MAX_FOOTER_TEXT
        &&& forall|i: int|
            0 <= i < self.fields.len() ==> (#[trigger] self.fields[i]).name.len() <= MAX_FIELD_NAME
                && self.fields[i].value.len() <= MAX_FIELD_VALUE
    }
}

/// Cutting leaves at most `max` characters, keeps what already fits, keeps the first
/// `max - 1` characters of what does not, and leaves no text blank that was not.
pub proof fn law_cut_text_fits(text: Seq<char>, max: int)
    requires
        max > 0,
    ensures
        cut(text, max).len() <= max,
        !is_blank(text) ==> !is_blank(cut(text, max)),
        text.len() <= max ==> cut(text, max) == text,
        text.len() > max ==> cut(text, max).len() == max && cut(text, max).drop_last()
            =~= text.take(max - 1) && cut(text, max).last() == '…',
{
    if text.len() > max {
        assert(!is_space(cut(text, max)[max - 1]));
    }
}

/// Whatever text they are given, the constructors build a payload within
/// Discord's limits.
pub proof fn law_constructors_stay_within_limits(text: Seq<char>, color: u32)
    ensures
        text_message(text).within_limits(),
        titled(text, color).within_limits(),
{
    law_cut_text_fits(text, MAX_CONTENT as int);
    law_cut_text_fits(text, MAX_EMBED_TITLE as int);
}

/// Every embed that is within Discord's limits stays so, whatever is added to it,
/// and so does the message that holds it.
pub proof fn law_builders_keep_limits(
    embed: EmbedView,
    message: MessageView,
    text: Seq<char>,
    other: Seq<char>,
    inline: bool,
    avatar_url: Option<Seq<char>>,
)
    requires
        embed.within_limits(),
        message.within_limits(),
    ensures
        embed.with_url(text).within_limits(),
        embed.with_description(text).within_limits(),
        embed.with_field(text, other, inline).within_limits(),
        embed.with_footer(text).within_limits(),
        embed.with_timestamp(text).within_limits(),
        embed_message(embed).within_limits(),
        message.with_identity(text, avatar_url).within_limits(),
{
    law_cut_text_fits(text, MAX_EMBED_DESCRIPTION as int);
    law_cut_text_fits(text, MAX_FIELD_NAME as int);
    law_cut_text_fits(other, MAX_FIELD_VALUE as int);
    law_cut_text_fits(text, MAX_FOOTER_TEXT as int);
    law_cut_text_fits(text, MAX_USERNAME as int);
    let fields = embed.with_field(text, other, inline).fields;
    assert forall|i: int| 0 <= i < fields.len() implies (#[trigger] fields[i]).name.len()
        <= MAX_FIELD_NAME && fields[i].value.len() <= MAX_FIELD_VALUE by {
        if i < embed.fields.len() {
            assert(fields[i] == embed.fields[i]);
        }
    }
}

impl Default for DiscordMessage {
    fn default() -> (message: Self)
        ensures
            message@ == (MessageView {
                content: None,
                username: None,
                avatar_url: None,
                embeds: Seq::empty(),
            }),
    {
        let message = DiscordMessage {
            content: None,
            username: None,
            avatar_url: None,
            embeds: Vec::new(),
        };
        assert(message@.embeds =~= Seq::<EmbedView>::empty());
        message
    }
}

impl Default for Embed {
    fn default() -> (embed: Self)
        ensures
            embed@ == (EmbedView {
                title: Seq::empty(),
                url: None,
                description: None,
                color: 0,
                fields: Seq::empty(),
                footer: None,
                timestamp: None,
            }),
    {
        let embed = Embed {
            title: String::new(),
            url: None,
            description: None,
            color: 0,
            fields: Vec::new(),
            footer: None,
            timestamp: None,
        };
        assert(embed@.title =~= Seq::<char>::empty());
        assert(embed@.fields =~= Seq::<FieldView>::empty());
        embed
    }
}

impl Default for EmbedField {
    fn default() -> (field: Self)
        ensures
            field@ == (FieldView { name: Seq::empty(), value: Seq::empty(), inline: false }),
    {
        let field = EmbedField { name: String::new(), value: String::new(), inline: false };
        assert(field@.name =~= Seq::<char>::empty());
        assert(field@.value =~= Seq::<char>::empty());
        field
    }
}

impl Default for EmbedFooter {
    fn default() -> (footer: Self)
        ensures
            footer@ == Seq::<char>::empty(),
    {
        EmbedFooter { text: String::new() }
    }
}

impl DiscordMessage {
    pub fn text(content: &str) -> (message: Self)
        ensures
            message@ == text_message(content@),
    {
        let message = DiscordMessage {
            content: Some(truncate(content, MAX_CONTENT)),
            username: None,
            avatar_url: None,
            embeds: Vec::new(),
        };
        assert(message@.embeds =~= Seq::<EmbedView>::empty());
        message
    }

    pub fn embed(embed: Embed) -> (message: Self)
        ensures
            message@ == embed_message(embed@),
    {
        let ghost model = embed@;
        let message = DiscordMessage {
            content: None,
            username: None,
            avatar_url: None,
            embeds: vec![embed],
        };
        assert(message@.embeds =~= seq![model]);
        message
    }

    pub fn with_identity(self, username: &str, avatar_url: Option<&str>) -> (message: Self)
        ensures
            message@ == self@.with_identity(username@, opt_view(avatar_url)),
    {
        let avatar_url = match avatar_url {
            Some(url) => Some(url.to_owned()),
            None => None,
        };
        DiscordMessage {
            content: self.content,
            username: Some(truncate(username, MAX_USERNAME)),
            avatar_url,
            embeds: self.embeds,
        }
    }
}

impl Embed {
    pub fn new(title: &str, color: u32) -> (embed: Self)
        ensures
            embed@ == titled(title@, color),
    {
        let embed = Embed {
            title: truncate(title, MAX_EMBED_TITLE),
            url: None,
            description: None,
            color,
            fields: Vec::new(),
            footer: None,
            timestamp: None,
        };
        assert(embed@.fields =~= Seq::<FieldView>::empty());
        embed
    }

    pub fn with_url(self, url: &str) -> (embed: Self)
        ensures
            embed@ == self@.with_url(url@),
    {
        let mut embed = self;
        if !blank(url) {
            embed.url = Some(url.to_owned());
        }
        embed
    }

    pub fn with_description(self, description: &str) -> (embed: Self)
        ensures
            embed@ == self@.with_description(description@),
    {
        let mut embed = self;
        if !blank(description) {
            embed.description = Some(truncate(description, MAX_EMBED_DESCRIPTION));
        }
        embed
    }

    pub fn with_field(self, name: &str, value: &str, inline: bool) -> (embed: Self)
        ensures
            embed@ == self@.with_field(name@, value@, inline),
    {
        let mut embed = self;
        let field = EmbedField {
            name: truncate(name, MAX_FIELD_NAME),
            value: truncate(value, MAX_FIELD_VALUE),
            inline,
        };
        embed.fields.push(field);
        assert(embed@.fields =~= self@.with_field(name@, value@, inline).fields);
        embed
    }

    pub fn with_footer(self, text: &str) -> (embed: Self)
        ensures
            embed@ == self@.with_footer(text@),
    {
        let mut embed = self;
        embed.footer = Some(EmbedFooter { text: truncate(text, MAX_FOOTER_TEXT) });
        embed
    }

    pub fn with_timestamp(self, timestamp: &str) -> (embed: Self)
        ensures
            embed@ == self@.with_timestamp(timestamp@),
    {
        let mut embed = self;
        embed.timestamp = Some(timestamp.to_owned());
        embed
    }
}

/// `s`, cut to `max` characters, the last of which is then an ellipsis.
pub fn truncate(s: &str, max: usize) -> (text: String)
    ensures
        text@ == cut(s@, max as int),
{
    let chars = to_chars(s);
    if chars.len() <= max {
        return s.to_owned();
    }
    let kept: usize = if max == 0 { 0 } else { max - 1 };
    let mut text = from_chars(&chars, 0, kept);
    text.push('…');
    assert(text@ =~= cut(s@, max as int));
    text
}

// ---------------------------------------------------------------------------
// The answer
// ---------------------------------------------------------------------------
/// The 2xx class of HTTP status codes.
pub open spec fn is_success(status: u16) -> bool {
    200 <= status < 300
}

/// What `String::from_utf8_lossy` makes of bytes.
pub uninterp spec fn lossy_text(bytes: Seq<u8>) -> Seq<char>;

/// The standard library's `String::from_utf8_lossy`: the text depends on the
/// bytes alone.
#[verifier::external_body]
fn from_utf8_lossy(bytes: &[u8]) -> (text: String)
    ensures
        text@ == lossy_text(bytes@),
{
    String::from_utf8_lossy(bytes).into_owned()
}

/// The start of a body, at most `MAX_ERROR_BODY` bytes of it.
pub open spec fn body_start(body: Seq<u8>) -> Seq<u8> {
    if body.len() > MAX_ERROR_BODY {
        body.take(MAX_ERROR_BODY as int)
    } else {
        body
    }
}

/// The start of a body, as much of it as is worth keeping.
pub fn start_of_body(body: &[u8]) -> (start: &[u8])
    ensures
        start@ == body_start(body@),
{
    let end: usize = if body.len() > MAX_ERROR_BODY { MAX_ERROR_BODY } else { body.len() };
    let start = vstd::slice::slice_subrange(body, 0, end);
    assert(start@ =~= body_start(body@));
    start
}

/// The start of an error body as text.
pub fn error_body(body: &[u8]) -> (text: String)
    ensures
        text@ == lossy_text(body_start(body@)),
{
    from_utf8_lossy(start_of_body(body))
}

pub fn success(status: u16) -> (r: bool)
    ensures
        r == is_success(status),
{
    200 <= status && status < 300
}

/// What the webhook's answer, its status code and its body, means for the
/// notification.
pub fn delivery(status: u16, body: &[u8]) -> (r: Result<(), NotifyError>)
    ensures
        r is Ok <==> is_success(status),
        r matches Err(e) ==> e@ == (NotifyError::Status::<Seq<char>> {
            status,
            body: lossy_text(body_start(body@)),
        }),
{
    if success(status) {
        Ok(())
    } else {
        Err(NotifyError::Status { status, body: error_body(body) })
    }
}

// ---------------------------------------------------------------------------
// What holds of every payload
// ---------------------------------------------------------------------------
/// `short` is all of `full`, or where that has more than `limit` characters, as many of
/// them as leave room for an ellipsis.
pub open spec fn abridges(short: Seq<char>, full: Seq<char>, limit: int) -> bool {
    if full.len() <= limit {
        short == full
    } else {
        &&& short.len() == limit
        &&& short.last() == '…'
        &&& forall|i: int| 0 <= i < limit - 1 ==> #[trigger] short[i] == full[i]
    }
}

/// No room leaves nothing but the ellipsis; wherever there is room, what is cut abridges
/// what it was cut from.
pub proof fn law_cut_text_is_abridged(text: Seq<char>, max: int)
    ensures
        max > 0 ==> abridges(cut(text, max), text, max),
        max == 0 && text.len() > 0 ==> cut(text, max) == seq!['…'],
{
}

/// A plain text message holds its text, up to 2000 characters, and nothing else; the
/// message of an embed holds that embed and nothing else; an embed starts with its title,
/// up to 256 characters, and its colour, and nothing else.
pub proof fn law_constructors_hold_what_they_are_given(
    text: Seq<char>,
    embed: EmbedView,
    color: u32,
)
    ensures
        ({
            let message = text_message(text);
            &&& message.content matches Some(content) && abridges(content, text, 2000)
            &&& message.username is None
            &&& message.avatar_url is None
            &&& message.embeds.len() == 0
        }),
        ({
            let message = embed_message(embed);
            &&& message.content is None
            &&& message.username is None
            &&& message.avatar_url is None
            &&& message.embeds.len() == 1
            &&& message.embeds[0] == embed
        }),
        ({
            let new = titled(text, color);
            &&& abridges(new.title, text, 256)
            &&& new.color == color
            &&& new.url is None
            &&& new.description is None
            &&& new.fields.len() == 0
            &&& new.footer is None
            &&& new.timestamp is None
        }),
{
}

/// Naming the sender of a message sets the name, up to 80 characters, and the avatar, and
/// leaves the rest as it was.
pub proof fn law_identity_is_all_that_is_set(
    message: MessageView,
    username: Seq<char>,
    avatar_url: Option<Seq<char>>,
)
    ensures
        ({
            let named = message.with_identity(username, avatar_url);
            &&& named.username matches Some(name) && abridges(name, username, 80)
            &&& named.avatar_url == avatar_url
            &&& named.content == message.content
            &&& named.embeds == message.embeds
        }),
{
}

/// Adding a link to an embed sets the link, unless the text is blank; adding a
/// description sets the description, up to 1500 characters, unless the text is blank; the
/// rest stays as it was.
pub proof fn law_blank_links_and_descriptions_are_left_out(embed: EmbedView, text: Seq<char>)
    ensures
        ({
            let linked = embed.with_url(text);
            &&& linked.url == if is_blank(text) {
                embed.url
            } else {
                Some(text)
            }
            &&& linked.title == embed.title
            &&& linked.description == embed.description
            &&& linked.color == embed.color
            &&& linked.fields == embed.fields
            &&& linked.footer == embed.footer
            &&& linked.timestamp == embed.timestamp
        }),
        ({
            let described = embed.with_description(text);
            &&& is_blank(text) ==> described.description == embed.description
            &&& !is_blank(text) ==> (described.description matches Some(description) && abridges(
                description,
                text,
                1500,
            ))
            &&& described.title == embed.title
            &&& described.url == embed.url
            &&& described.color == embed.color
            &&& described.fields == embed.fields
            &&& described.footer == embed.footer
            &&& described.timestamp == embed.timestamp
        }),
{
}

/// A field goes behind those that are there, with its name, up to 256 characters, its
/// value, up to 1024, and its place in the line; a footer, up to 2048 characters, and a
/// timestamp, as it is, are set; the rest stays as it was.
pub proof fn law_fields_footers_and_timestamps_are_added(
    embed: EmbedView,
    name: Seq<char>,
    text: Seq<char>,
    inline: bool,
)
    ensures
        ({
            let longer = embed.with_field(name, text, inline);
            &&& longer.fields.len() == embed.fields.len() + 1
            &&& forall|i: int|
                0 <= i < embed.fields.len() ==> #[trigger] longer.fields[i] == embed.fields[i]
            &&& abridges(longer.fields.last().name, name, 256)
            &&& abridges(longer.fields.last().value, text, 1024)
            &&& longer.fields.last().inline == inline
            &&& longer.title == embed.title
            &&& longer.url == embed.url
            &&& longer.description == embed.description
            &&& longer.color == embed.color
            &&& longer.footer == embed.footer
            &&& longer.timestamp == embed.timestamp
        }),
        ({
            let footed = embed.with_footer(text);
            &&& footed.footer matches Some(footer) && abridges(footer, text, 2048)
            &&& footed.title == embed.title
            &&& footed.url == embed.url
            &&& footed.description == embed.description
            &&& footed.color == embed.color
            &&& footed.fields == embed.fields
            &&& footed.timestamp == embed.timestamp
        }),
        ({
            let timed = embed.with_timestamp(text);
            &&& timed.timestamp == Some(text)
            &&& timed.title == embed.title
            &&& timed.url == embed.url
            &&& timed.description == embed.description
            &&& timed.color == embed.color
            &&& timed.fields == embed.fields
            &&& timed.footer == embed.footer
        }),
{
}

/// Success is the class of status codes that begin with 2 and has no other.
pub proof fn law_success_is_the_second_class(status: u16)
    ensures
        is_success(status) <==> status as int / 100 == 2,
{
}

/// Of a body the first 512 bytes are kept, or all of them where there are fewer.
pub proof fn law_the_start_of_a_body_is_kept(body: Seq<u8>)
    ensures
        body_start(body).len() == if body.len() < 512 {
            body.len()
        } else {
            512
        },
        forall|i: int|
            0 <= i < body_start(body).len() ==> #[trigger] body_start(body)[i] == body[i],
{
}

/// What a payload, an embed and a field show of themselves are their own parts, each in
/// its place.
pub proof fn law_payloads_show_their_parts(
    message: DiscordMessage,
    embed: Embed,
    field: EmbedField,
)
    ensures
        message@.content is Some <==> message.content is Some,
        message.content matches Some(content) ==> message@.content == Some(content@),
        message@.username is Some <==> message.username is Some,
        message.username matches Some(name) ==> message@.username == Some(name@),
        message@.avatar_url is Some <==> message.avatar_url is Some,
        message.avatar_url matches Some(url) ==> message@.avatar_url == Some(url@),
        message@.embeds.len() == message.embeds@.len(),
        forall|i: int|
            0 <= i < message.embeds@.len() ==> #[trigger] message@.embeds[i]
                == message.embeds@[i]@,
        embed@.title == embed.title@,
        embed@.color == embed.color,
        embed@.url is Some <==> embed.url is Some,
        embed.url matches Some(url) ==> embed@.url == Some(url@),
        embed@.description is Some <==> embed.description is Some,
        embed.description matches Some(text) ==> embed@.description == Some(text@),
        embed@.footer is Some <==> embed.footer is Some,
        embed.footer matches Some(footer) ==> embed@.footer == Some(footer.text@),
        embed@.timestamp is Some <==> embed.timestamp is Some,
        embed.timestamp matches Some(text) ==> embed@.timestamp == Some(text@),
        embed@.fields.len() == embed.fields@.len(),
        forall|i: int|
            0 <= i < embed.fields@.len() ==> #[trigger] embed@.fields[i] == embed.fields@[i]@,
        field@.name == field.name@,
        field@.value == field.value@,
        field@.inline == field.inline,
{
}

} // verus!
