use chime::notifier::{
    delivery, error_body, start_of_body, success, truncate, DiscordMessage, Embed, EmbedField,
    EmbedFooter, NotifyError, MAX_CONTENT, MAX_EMBED_DESCRIPTION, MAX_EMBED_TITLE, MAX_FIELD_NAME,
    MAX_FIELD_VALUE, MAX_FOOTER_TEXT, MAX_USERNAME,
};

#[test]
fn text_message_is_content_only() {
    let msg = DiscordMessage::text("hello");
    assert_eq!(msg.content.as_deref(), Some("hello"));
    assert!(msg.username.is_none());
    assert!(msg.avatar_url.is_none());
    assert!(msg.embeds.is_empty());
    assert_ne!(msg, DiscordMessage::default());
}

#[test]
fn truncate_keeps_char_boundaries() {
    let s = "あいうえお";
    assert_eq!(truncate(s, 10), "あいうえお");
    assert_eq!(truncate(s, 3), "あい…");
}

#[test]
fn truncate_at_the_limit() {
    assert_eq!(truncate("abc", 3), "abc");
    assert_eq!(truncate("abcd", 3), "ab…");
    assert_eq!(truncate("abcd", 1), "…");
    assert_eq!(truncate("abcd", 0), "…");
    assert_eq!(truncate("", 0), "");
}

#[test]
fn embed_enforces_discord_limits() {
    let long = "x".repeat(5000);
    let embed = Embed::new(&long, 0x00FF00)
        .with_description(&long)
        .with_field("f", &long, false)
        .with_footer(&long);
    assert_eq!(embed.title.chars().count(), MAX_EMBED_TITLE);
    assert_eq!(
        embed.description.as_ref().unwrap().chars().count(),
        MAX_EMBED_DESCRIPTION
    );
    assert_eq!(embed.fields[0].value.chars().count(), MAX_FIELD_VALUE);
    assert!(embed.title.ends_with('…'));
    assert_eq!(
        embed.footer.as_ref().unwrap().text.chars().count(),
        MAX_FOOTER_TEXT
    );
    let embed = embed.with_field(&long, "v", true);
    assert_eq!(embed.fields[1].name.chars().count(), MAX_FIELD_NAME);
    assert!(embed.fields[1].inline);
    let msg = DiscordMessage::text(&long).with_identity(&long, None);
    assert_eq!(msg.content.unwrap().chars().count(), MAX_CONTENT);
    assert_eq!(msg.username.unwrap().chars().count(), MAX_USERNAME);
    assert_eq!(
        [
            MAX_CONTENT,
            MAX_EMBED_TITLE,
            MAX_EMBED_DESCRIPTION,
            MAX_FIELD_NAME,
            MAX_FIELD_VALUE,
            MAX_FOOTER_TEXT,
            MAX_USERNAME
        ],
        [2000, 256, 1500, 256, 1024, 2048, 80]
    );
}

#[test]
fn a_new_embed_has_a_title_and_a_color_only() {
    let msg = DiscordMessage::embed(Embed::new("t", 1));
    assert!(msg.content.is_none());
    assert_eq!(msg.embeds.len(), 1);
    let embed = &msg.embeds[0];
    assert_eq!(embed.title, "t");
    assert_eq!(embed.color, 1);
    assert!(embed.url.is_none());
    assert!(embed.description.is_none());
    assert!(embed.fields.is_empty());
    assert!(embed.footer.is_none());
    assert!(embed.timestamp.is_none());
}

#[test]
fn empty_description_and_url_are_omitted() {
    let embed = Embed::new("t", 1).with_description("  ").with_url("");
    assert!(embed.description.is_none());
    assert!(embed.url.is_none());
}

#[test]
fn a_cut_description_is_not_blank() {
    let text = " ".repeat(2000) + "x";
    let embed = Embed::new("t", 1).with_description(&text);
    assert_eq!(embed.description, Some(" ".repeat(1499) + "…"));
}

#[test]
fn descriptions_and_urls_are_kept_as_they_are() {
    let embed = Embed::new("t", 1)
        .with_description(" d ")
        .with_url(" u ")
        .with_timestamp("when");
    assert_eq!(embed.description.as_deref(), Some(" d "));
    assert_eq!(embed.url.as_deref(), Some(" u "));
    assert_eq!(embed.timestamp.as_deref(), Some("when"));
}

#[test]
fn identity_sets_username_and_avatar() {
    let msg = DiscordMessage::embed(Embed::new("t", 1))
        .with_identity("Proton Status", Some("https://example.com/a.png"));
    assert_eq!(msg.username.as_deref(), Some("Proton Status"));
    assert_eq!(msg.avatar_url.as_deref(), Some("https://example.com/a.png"));
}

#[test]
fn only_success_is_delivery() {
    for status in [200, 204, 299] {
        assert!(success(status));
        assert!(delivery(status, b"ignored").is_ok());
    }
    for status in [199, 300, 404, 500] {
        assert!(!success(status));
        match delivery(status, b"no") {
            Err(NotifyError::Status { status: s, body }) => {
                assert_eq!(s, status);
                assert_eq!(body, "no");
            }
            other => panic!("{other:?}"),
        }
    }
}

#[test]
fn error_bodies_are_cut_and_made_text() {
    assert_eq!(error_body(&[b'x'; 512]), "x".repeat(512));
    assert_eq!(error_body(&[b'x'; 513]), "x".repeat(512));
    assert_eq!(error_body(&[0x61, 0xff, 0x62]), "a\u{fffd}b");
    // A character that the cut splits is replaced.
    let mut body = vec![b'x'; 511];
    body.extend("é".bytes());
    assert_eq!(error_body(&body), "x".repeat(511) + "\u{fffd}");
}

#[test]
fn bodies_are_cut_by_bytes() {
    assert_eq!(start_of_body(b"abc"), b"abc");
    let body: Vec<u8> = (0..600).map(|i| (i % 251) as u8).collect();
    assert_eq!(start_of_body(&body), &body[..512]);
}

#[test]
fn parts_of_a_message_are_empty_by_default() {
    assert_eq!(Embed::default(), Embed::new("", 0));
    assert_eq!(EmbedFooter::default().text, "");
    let field = EmbedField::default();
    assert_eq!((field.name.as_str(), field.value.as_str()), ("", ""));
    assert!(!field.inline);
}
