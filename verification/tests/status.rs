use chime::clock::{Span, Timestamp};
use chime::config::Impact;
use chime::notifier::DiscordMessage;
use chime::runtime::RunStatusPage;
use chime::status::{
    build_message, diff, feed, fetch_request, message_at, refused, reply, Fetched, Incident,
    IncidentState, IncidentUpdate, PageState, Reply, StatusError, StatusEvent, WireComponent,
    WireIncident, WireResponse, WireUpdate, COLOR_CRITICAL, COLOR_MAJOR, COLOR_MINOR, COLOR_NEUTRAL,
    COLOR_RESOLVED,
};

fn ts(s: &str) -> Timestamp {
    Timestamp::parse_rfc3339(s).unwrap()
}

fn mk_update(id: &str, state: &str, at: &str) -> IncidentUpdate {
    IncidentUpdate {
        id: id.to_string(),
        state: IncidentState::from_wire(state),
        body: format!("body of {id}"),
        created_at: ts(at),
    }
}

fn mk_incident(id: &str, impact: Impact, updates: Vec<IncidentUpdate>) -> Incident {
    Incident {
        id: id.to_string(),
        name: format!("incident {id}"),
        impact: Some(impact),
        link: Some(format!("https://stspg.io/{id}")),
        components: vec!["api".to_string()],
        updates,
    }
}

/// Drive a state past its cold-start baseline so a test can assert on real diffs.
fn baselined(incidents: &[Incident]) -> PageState {
    let mut state = PageState::default();
    assert!(diff(&mut state, incidents, Impact::NoImpact).is_empty());
    state
}

fn mk_run_status_page(name: &str, poll_interval: Span) -> RunStatusPage {
    RunStatusPage {
        name: name.to_string(),
        api_url: format!("https://status.{name}.example/api/v2/incidents.json"),
        webhook_url: "https://discord.example/webhook".to_string(),
        host: format!("status.{name}.example"),
        display_name: format!("{name} Status"),
        avatar_url: None,
        poll_interval,
        min_impact: Impact::NoImpact,
    }
}

#[test]
fn first_poll_reports_nothing() {
    let incidents = vec![
        mk_incident(
            "a",
            Impact::Critical,
            vec![mk_update("a1", "investigating", "2026-09-01T10:00:00Z")],
        ),
        mk_incident(
            "b",
            Impact::Minor,
            vec![mk_update("b1", "resolved", "2026-09-01T09:00:00Z")],
        ),
    ];
    let mut state = PageState::default();
    assert!(diff(&mut state, &incidents, Impact::NoImpact).is_empty());
}

#[test]
fn new_incident_after_baseline_is_reported() {
    let baseline = vec![mk_incident(
        "a",
        Impact::Minor,
        vec![mk_update("a1", "investigating", "2026-09-01T10:00:00Z")],
    )];
    let mut state = baselined(&baseline);

    let mut next = baseline.clone();
    next.push(mk_incident(
        "b",
        Impact::Major,
        vec![mk_update("b1", "investigating", "2026-09-01T11:00:00Z")],
    ));

    let events = diff(&mut state, &next, Impact::NoImpact);
    assert_eq!(events.len(), 1);
    assert_eq!(events[0].incident_id, "b");
    assert_eq!(events[0].state, IncidentState::Investigating);
}

#[test]
fn unchanged_incident_is_not_reported_twice() {
    let incidents = vec![mk_incident(
        "a",
        Impact::Minor,
        vec![mk_update("a1", "investigating", "2026-09-01T10:00:00Z")],
    )];
    let mut state = baselined(&incidents);
    assert!(diff(&mut state, &incidents, Impact::NoImpact).is_empty());
    assert!(diff(&mut state, &incidents, Impact::NoImpact).is_empty());
}

#[test]
fn new_update_on_known_incident_is_reported() {
    let baseline = vec![mk_incident(
        "a",
        Impact::Major,
        vec![mk_update("a1", "investigating", "2026-09-01T10:00:00Z")],
    )];
    let mut state = baselined(&baseline);

    let next = vec![mk_incident(
        "a",
        Impact::Major,
        vec![
            mk_update("a2", "resolved", "2026-09-01T10:30:00Z"),
            mk_update("a1", "investigating", "2026-09-01T10:00:00Z"),
        ],
    )];
    let events = diff(&mut state, &next, Impact::NoImpact);
    assert_eq!(events.len(), 1);
    assert_eq!(events[0].state, IncidentState::Resolved);
    assert_eq!(events[0].occurred_at, ts("2026-09-01T10:30:00Z"));
}

#[test]
fn latest_update_wins_regardless_of_array_order() {
    let baseline = vec![mk_incident("a", Impact::Minor, vec![])];
    let mut state = baselined(&baseline);
    let next = vec![mk_incident(
        "a",
        Impact::Minor,
        vec![
            mk_update("old", "investigating", "2026-09-01T10:00:00Z"),
            mk_update("new", "monitoring", "2026-09-01T12:00:00Z"),
            mk_update("mid", "identified", "2026-09-01T11:00:00Z"),
        ],
    )];
    let events = diff(&mut state, &next, Impact::NoImpact);
    assert_eq!(events.len(), 1);
    assert_eq!(events[0].state, IncidentState::Monitoring);
}

#[test]
fn of_equally_late_updates_the_last_wins() {
    let mut state = baselined(&[]);
    let next = vec![mk_incident(
        "a",
        Impact::Minor,
        vec![
            mk_update("one", "investigating", "2026-09-01T12:00:00Z"),
            mk_update("two", "identified", "2026-09-01T12:00:00Z"),
            mk_update("old", "monitoring", "2026-09-01T11:00:00Z"),
        ],
    )];
    let events = diff(&mut state, &next, Impact::NoImpact);
    assert_eq!(
        events,
        vec![StatusEvent {
            incident_id: "a".to_string(),
            title: "incident a".to_string(),
            body: "body of two".to_string(),
            state: IncidentState::Identified,
            impact: Some(Impact::Minor),
            link: Some("https://stspg.io/a".to_string()),
            components: vec!["api".to_string()],
            occurred_at: ts("2026-09-01T12:00:00Z"),
        }]
    );
    assert_eq!(state.seen().get("a").map(|u| u.as_str()), Some("two"));
}

#[test]
fn incident_without_updates_is_skipped() {
    let mut state = baselined(&[]);
    let next = vec![mk_incident("a", Impact::Critical, vec![])];
    assert!(diff(&mut state, &next, Impact::NoImpact).is_empty());
}

#[test]
fn min_impact_filters_below_threshold() {
    let mut state = baselined(&[]);
    let next = vec![
        mk_incident(
            "low",
            Impact::Minor,
            vec![mk_update("l1", "investigating", "2026-09-01T10:00:00Z")],
        ),
        mk_incident(
            "high",
            Impact::Critical,
            vec![mk_update("h1", "investigating", "2026-09-01T10:00:00Z")],
        ),
    ];
    let events = diff(&mut state, &next, Impact::Major);
    assert_eq!(events.len(), 1);
    assert_eq!(events[0].incident_id, "high");
}

#[test]
fn filtered_incident_is_still_recorded_as_seen() {
    // Otherwise lowering `min_impact` later would replay the whole backlog.
    let mut state = baselined(&[]);
    let next = vec![mk_incident(
        "low",
        Impact::Minor,
        vec![mk_update("l1", "investigating", "2026-09-01T10:00:00Z")],
    )];
    assert!(diff(&mut state, &next, Impact::Major).is_empty());
    assert!(diff(&mut state, &next, Impact::NoImpact).is_empty());
}

#[test]
fn unknown_impact_always_passes_the_filter() {
    let mut state = baselined(&[]);
    let mut incident = mk_incident(
        "x",
        Impact::NoImpact,
        vec![mk_update("x1", "investigating", "2026-09-01T10:00:00Z")],
    );
    incident.impact = None;
    let events = diff(&mut state, &[incident], Impact::Critical);
    assert_eq!(events.len(), 1);
    assert!(events[0].impact.is_none());
}

#[test]
fn events_are_ordered_oldest_first() {
    let mut state = baselined(&[]);
    let next = vec![
        mk_incident(
            "late",
            Impact::Minor,
            vec![mk_update("l", "investigating", "2026-09-01T12:00:00Z")],
        ),
        mk_incident(
            "early",
            Impact::Minor,
            vec![mk_update("e", "investigating", "2026-09-01T09:00:00Z")],
        ),
    ];
    let events = diff(&mut state, &next, Impact::NoImpact);
    assert_eq!(events[0].incident_id, "early");
    assert_eq!(events[1].incident_id, "late");
}

#[test]
fn events_of_one_instant_keep_their_order() {
    let mut state = baselined(&[]);
    let at = |id: &str, at: &str| {
        mk_incident(id, Impact::Minor, vec![mk_update(id, "investigating", at)])
    };
    let next = vec![
        at("c", "2026-09-01T12:00:00Z"),
        at("b", "2026-09-01T12:00:00Z"),
        at("a", "2026-09-01T09:00:00Z"),
        at("d", "2026-09-01T12:00:00Z"),
    ];
    let events = diff(&mut state, &next, Impact::NoImpact);
    let order: Vec<&str> = events.iter().map(|e| e.incident_id.as_str()).collect();
    assert_eq!(order, vec!["a", "c", "b", "d"]);
}

#[test]
fn vanished_incidents_are_pruned_from_state() {
    let baseline = vec![mk_incident(
        "a",
        Impact::Minor,
        vec![mk_update("a1", "investigating", "2026-09-01T10:00:00Z")],
    )];
    let mut state = baselined(&baseline);
    assert!(diff(&mut state, &[], Impact::NoImpact).is_empty());
    assert_eq!(state.seen().len(), 0);

    // The incident reappearing is treated as new, not as already-seen.
    let events = diff(&mut state, &baseline, Impact::NoImpact);
    assert_eq!(events.len(), 1);
}

#[test]
fn an_incident_that_contradicts_itself_is_reported_again() {
    let twice = vec![
        mk_incident(
            "a",
            Impact::Minor,
            vec![mk_update("u1", "investigating", "2026-09-01T10:00:00Z")],
        ),
        mk_incident(
            "a",
            Impact::Minor,
            vec![mk_update("u2", "identified", "2026-09-01T11:00:00Z")],
        ),
    ];
    let mut state = baselined(&twice);
    assert_eq!(diff(&mut state, &twice, Impact::NoImpact).len(), 2);
}

/// The incidents of a feed in JSON.
fn wire(json: &str) -> WireResponse {
    let value: serde_json::Value = serde_json::from_str(json).unwrap();
    let list = |value: &serde_json::Value, key: &str| -> Vec<serde_json::Value> {
        value
            .get(key)
            .map(|v| v.as_array().unwrap().clone())
            .unwrap_or_default()
    };
    let text = |value: &serde_json::Value, key: &str| -> String {
        value[key].as_str().unwrap().to_string()
    };
    WireResponse {
        incidents: list(&value, "incidents")
            .iter()
            .map(|i| WireIncident {
                id: text(i, "id"),
                name: text(i, "name"),
                impact: text(i, "impact"),
                shortlink: i
                    .get("shortlink")
                    .and_then(|v| v.as_str())
                    .map(str::to_string),
                incident_updates: list(i, "incident_updates")
                    .iter()
                    .map(|u| WireUpdate {
                        id: text(u, "id"),
                        status: text(u, "status"),
                        body: text(u, "body"),
                        created_at: text(u, "created_at"),
                    })
                    .collect(),
                components: list(i, "components")
                    .iter()
                    .map(|c| WireComponent {
                        name: text(c, "name"),
                    })
                    .collect(),
            })
            .collect(),
    }
}

#[test]
fn wire_response_decodes_real_statuspage_payload() {
    let json = r#"{
      "page": {"id": "abc", "name": "Proton"},
      "incidents": [{
        "id": "inc1",
        "name": "Degraded performance on platform.proton.com",
        "status": "investigating",
        "created_at": "2026-09-01T17:05:11.462Z",
        "impact": "minor",
        "shortlink": "https://stspg.io/4rf459q4pjc3",
        "future_field_statuspage_added_later": 42,
        "components": [{"id": "c1", "name": "proton.ai"}],
        "incident_updates": [{
          "id": "upd1",
          "status": "investigating",
          "body": "We are investigating reports of degraded performance.",
          "created_at": "2026-09-01T17:05:11.575Z",
          "deliver_notifications": true
        }]
      }]
    }"#;
    let parsed = wire(json);
    let incident = parsed.incidents.into_iter().next().unwrap().normalize();
    assert_eq!(incident.id, "inc1");
    assert_eq!(incident.impact, Some(Impact::Minor));
    assert_eq!(incident.components, vec!["proton.ai".to_string()]);
    assert_eq!(incident.updates.len(), 1);
    assert_eq!(incident.updates[0].state, IncidentState::Investigating);
    assert_eq!(
        incident.updates[0].created_at,
        ts("2026-09-01T17:05:11.575Z")
    );
}

#[test]
fn unparsable_timestamps_drop_only_that_update() {
    let json = r#"{"incidents":[{
        "id":"i","name":"n","impact":"minor",
        "incident_updates":[
          {"id":"good","status":"resolved","body":"b","created_at":"2026-09-01T10:00:00Z"},
          {"id":"bad","status":"resolved","body":"b","created_at":"yesterday"}
        ]}]}"#;
    let parsed = wire(json);
    let incident = parsed.incidents.into_iter().next().unwrap().normalize();
    assert_eq!(incident.updates.len(), 1);
    assert_eq!(incident.updates[0].id, "good");
}

#[test]
fn updates_need_a_time() {
    let update = WireUpdate {
        id: "u".to_string(),
        status: "on fire".to_string(),
        body: "b".to_string(),
        created_at: "ignored".to_string(),
    };
    assert_eq!(update.dated(None), None);
    assert_eq!(
        update.dated(Some(ts("2026-09-01T10:00:00Z"))),
        Some(IncidentUpdate {
            id: "u".to_string(),
            state: IncidentState::Unknown,
            body: "b".to_string(),
            created_at: ts("2026-09-01T10:00:00Z"),
        })
    );
}

fn event(state: &str, impact: Option<Impact>) -> StatusEvent {
    StatusEvent {
        incident_id: "inc1".to_string(),
        title: "Degraded performance on platform.proton.com".to_string(),
        body: "We are investigating reports of degraded performance.".to_string(),
        state: IncidentState::from_wire(state),
        impact,
        link: Some("https://stspg.io/4rf459q4pjc3".to_string()),
        components: vec!["proton.ai".to_string(), "Proton Console".to_string()],
        occurred_at: ts("2026-09-01T17:05:11.575Z"),
    }
}

#[test]
fn message_carries_the_page_identity_and_incident_link() {
    let page = mk_run_status_page("proton", Span::from_secs(300));
    let msg = build_message(&page, &event("investigating", Some(Impact::Minor)));

    assert_eq!(msg.username.as_deref(), Some("proton Status"));
    assert!(msg.content.is_none());
    let embed = &msg.embeds[0];
    assert_eq!(embed.title, "Degraded performance on platform.proton.com");
    assert_eq!(embed.url.as_deref(), Some("https://stspg.io/4rf459q4pjc3"));
    assert_eq!(embed.footer.as_ref().unwrap().text, "status.proton.example");
    assert_eq!(
        embed.timestamp.as_deref(),
        Some("2026-09-01T17:05:11.575+00:00")
    );
    assert_eq!(
        embed.description.as_deref(),
        Some("We are investigating reports of degraded performance.")
    );
}

#[test]
fn message_carries_the_avatar() {
    let mut page = mk_run_status_page("proton", Span::from_secs(300));
    page.avatar_url = Some("https://example.com/a.png".to_string());
    let msg: DiscordMessage = build_message(&page, &event("monitoring", None));
    assert_eq!(msg.avatar_url.as_deref(), Some("https://example.com/a.png"));
}

#[test]
fn message_fields_report_status_impact_and_components() {
    let page = mk_run_status_page("proton", Span::from_secs(300));
    let msg = build_message(&page, &event("identified", Some(Impact::Major)));
    let fields = &msg.embeds[0].fields;

    assert_eq!(fields[0].name, "Status");
    assert_eq!(fields[0].value, "🎯 Identified");
    assert!(fields[0].inline);
    assert_eq!(fields[1].name, "Impact");
    assert_eq!(fields[1].value, "Major");
    assert_eq!(fields[2].name, "Components");
    assert_eq!(fields[2].value, "proton.ai, Proton Console");
    assert!(!fields[2].inline);
}

#[test]
fn every_state_has_a_label_and_an_emoji() {
    for (word, label, emoji, resolved) in [
        ("investigating", "Investigating", "🔍", false),
        ("identified", "Identified", "🎯", false),
        ("monitoring", "Monitoring", "👀", false),
        ("resolved", "Resolved", "✅", true),
        ("postmortem", "Postmortem", "📄", true),
        ("Resolved", "Update", "ℹ️", false),
        ("", "Update", "ℹ️", false),
    ] {
        let state = IncidentState::from_wire(word);
        assert_eq!(state.label(), label);
        assert_eq!(state.emoji(), emoji);
        assert_eq!(state.is_resolved(), resolved);
    }
}

#[test]
fn embed_color_follows_impact() {
    let page = mk_run_status_page("proton", Span::from_secs(300));
    let color = |impact| build_message(&page, &event("investigating", impact)).embeds[0].color;
    assert_eq!(color(Some(Impact::Critical)), COLOR_CRITICAL);
    assert_eq!(color(Some(Impact::Major)), COLOR_MAJOR);
    assert_eq!(color(Some(Impact::Minor)), COLOR_MINOR);
    assert_eq!(color(Some(Impact::NoImpact)), COLOR_NEUTRAL);
    // An unrecognized severity must not be dressed up as a known one.
    assert_eq!(color(None), COLOR_NEUTRAL);
    assert_eq!(color(Some(Impact::Maintenance)), COLOR_NEUTRAL);
}

#[test]
fn colors_are_those_of_discord() {
    assert_eq!(
        [
            COLOR_RESOLVED,
            COLOR_CRITICAL,
            COLOR_MAJOR,
            COLOR_MINOR,
            COLOR_NEUTRAL
        ],
        [0x57F287, 0xED4245, 0xE67E22, 0xFEE75C, 0x99AAB5]
    );
}

#[test]
fn resolved_is_green_even_for_a_critical_incident() {
    let page = mk_run_status_page("proton", Span::from_secs(300));
    let msg = build_message(&page, &event("resolved", Some(Impact::Critical)));
    assert_eq!(msg.embeds[0].color, COLOR_RESOLVED);
    assert_eq!(msg.embeds[0].fields[0].value, "✅ Resolved");
    // The severity it *had* is still reported.
    assert_eq!(msg.embeds[0].fields[1].value, "Critical");
}

#[test]
fn unknown_impact_is_labelled_rather_than_guessed() {
    let page = mk_run_status_page("proton", Span::from_secs(300));
    let msg = build_message(&page, &event("investigating", None));
    assert_eq!(msg.embeds[0].fields[1].value, "Unknown");
}

#[test]
fn message_without_link_or_components_omits_them() {
    let page = mk_run_status_page("proton", Span::from_secs(300));
    let mut ev = event("monitoring", Some(Impact::Minor));
    ev.link = None;
    ev.components.clear();
    let msg = build_message(&page, &ev);
    assert!(msg.embeds[0].url.is_none());
    assert_eq!(msg.embeds[0].fields.len(), 2);
}

#[test]
fn unknown_wire_impact_becomes_none() {
    let json =
        r#"{"incidents":[{"id":"i","name":"n","impact":"catastrophic","incident_updates":[]}]}"#;
    let parsed = wire(json);
    let incident = parsed.incidents.into_iter().next().unwrap().normalize();
    assert!(incident.impact.is_none());
    assert!(incident.link.is_none());
}

#[test]
fn requests_are_conditional() {
    let request = fetch_request("https://h/feed", &Some("\"tag\"".to_string()));
    assert_eq!(request.url, "https://h/feed");
    assert_eq!(request.accept, "application/json");
    assert_eq!(request.if_none_match.as_deref(), Some("\"tag\""));
    assert_eq!(request.timeout, Span::from_secs(5));
    assert!(fetch_request("https://h/feed", &None).if_none_match.is_none());
}

#[test]
fn answers_are_told_apart_by_status() {
    assert_eq!(reply(304), Reply::NotModified);
    assert_eq!(reply(200), Reply::Feed);
    assert_eq!(reply(299), Reply::Feed);
    assert_eq!(reply(301), Reply::Refused);
    assert_eq!(reply(503), Reply::Refused);
    match refused(503, &[b'x'; 600]) {
        StatusError::Status { status, body } => {
            assert_eq!(status, 503);
            assert_eq!(body, "x".repeat(512));
        }
        other => panic!("{other:?}"),
    }
}

#[test]
fn feeds_are_normalized_in_order() {
    let parsed = wire(
        r#"{"incidents":[{"id":"b","name":"n","impact":"none"},
            {"id":"a","name":"n","impact":"major"}]}"#,
    );
    match feed(Ok(parsed), Some("tag".to_string())) {
        Ok(Fetched::Modified { incidents, etag }) => {
            assert_eq!(etag.as_deref(), Some("tag"));
            assert_eq!(incidents[0].id, "b");
            assert_eq!(incidents[0].impact, Some(Impact::NoImpact));
            assert_eq!(incidents[1].impact, Some(Impact::Major));
        }
        other => panic!("{other:?}"),
    }
    assert!(matches!(
        feed(Err("no json".to_string()), None),
        Err(StatusError::Decode(reason)) if reason == "no json"
    ));
}

#[test]
fn the_timestamp_of_a_message_is_a_text() {
    let page = mk_run_status_page("proton", Span::from_secs(300));
    let event = event("monitoring", None);
    let msg = message_at(&page, &event, "noon");
    assert_eq!(msg.embeds[0].timestamp.as_deref(), Some("noon"));
    assert_eq!(
        build_message(&page, &event),
        message_at(&page, &event, "2026-09-01T17:05:11.575+00:00")
    );
}

#[test]
fn updates_without_a_time_are_left_out() {
    let parsed = wire(
        r#"{"incidents":[{"id":"i","name":"n","impact":"minor","incident_updates":[
          {"id":"a","status":"resolved","body":"b","created_at":"x"},
          {"id":"b","status":"resolved","body":"b","created_at":"x"},
          {"id":"c","status":"resolved","body":"b","created_at":"x"}
        ]}]}"#,
    );
    let at = ts("2026-09-01T10:00:00Z");
    let incident = parsed.incidents[0].normalize_at(&vec![Some(at), None, Some(at)]);
    let ids: Vec<&str> = incident.updates.iter().map(|u| u.id.as_str()).collect();
    assert_eq!(ids, vec!["a", "c"]);
}
