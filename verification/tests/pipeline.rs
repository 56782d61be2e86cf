use mailkit::error::ErrorReport;
use mailkit::mailer::{Config, MailAttachment, MailIdentity, Mailer};
use mailkit::mailer::{evaluate_delivery, is_positive_completion, pack_attachment, render_template};

fn identity(addr: &str) -> MailIdentity {
    MailIdentity::new(None, &addr.as_bytes().to_vec()).unwrap()
}

fn test_config() -> Config {
    Config {
        from_addrs: identity("noreply@example.com"),
        reply_to: identity("support@example.com"),
        server: String::from("smtp.example.com"),
        port: 587,
        user_name: String::from("user"),
        password: String::from("SECRET-REDACTED"),
        template_dir_path: b"/srv/templates".to_vec(),
        template_name_format: b"mail_{lang}.html".to_vec(),
        languages: vec![b"en".to_vec(), b"ro".to_vec()],
        default_language: b"en".to_vec(),
    }
}

#[test]
fn template_path_uses_default_language_when_none() {
    let mailer = Mailer::init(test_config());
    let path = mailer.template_path(None);
    assert_eq!(path, b"/srv/templates/mail_en.html".to_vec());
}

#[test]
fn template_path_uses_explicit_language() {
    let mailer = Mailer::init(test_config());
    let lang = b"ro".to_vec();
    let path = mailer.template_path(Some(&lang));
    assert_eq!(path, b"/srv/templates/mail_ro.html".to_vec());
}

#[test]
fn template_path_keeps_trailing_separator() {
    let mut config = test_config();
    config.template_dir_path = b"/srv/templates/".to_vec();
    let mailer = Mailer::init(config);
    let path = mailer.template_path(None);
    assert_eq!(path, b"/srv/templates/mail_en.html".to_vec());
}

#[test]
fn render_inserts_message_and_drops_placeholder() {
    let template = b"<p>{{contents}}</p>".to_vec();
    let message = b"hello".to_vec();
    let body = render_template(&template, &message);
    assert_eq!(body, b"<p>hello</p>".to_vec());
    let contains = |hay: &Vec<u8>, needle: &[u8]| {
        hay.windows(needle.len()).any(|w| w == needle)
    };
    assert!(contains(&body, b"hello"));
    assert!(!contains(&body, b"{{contents}}"));
}

#[test]
fn render_is_deterministic() {
    let template = b"Dear reader,\n{{contents}}\nBye".to_vec();
    let message = b"Rust is the best".to_vec();
    let first = render_template(&template, &message);
    let second = render_template(&template, &message);
    assert_eq!(first, second);
}

#[test]
fn render_without_placeholder_leaves_template_unchanged() {
    let template = b"<p>no slot here</p>".to_vec();
    let message = b"hello".to_vec();
    let body = render_template(&template, &message);
    assert_eq!(body, template);
}

#[test]
fn compose_preserves_attachment_order() {
    let mailer = Mailer::init(test_config());
    let to = vec![identity("alice@example.com")];
    let names = ["a.txt", "b.txt", "c.txt"];
    let attachments: Vec<(MailAttachment, Vec<u8>)> = names
        .iter()
        .map(|name| {
            (
                MailAttachment { path: "unused", name, mime: "text/plain" },
                name.as_bytes().to_vec(),
            )
        })
        .collect();
    let message = b"hi".to_vec();
    let template = b"{{contents}}".to_vec();
    let composed = mailer
        .compose(to, None, String::from("subject"), &message, &template, attachments)
        .unwrap();
    let got: Vec<String> = composed.attachments.iter().map(|p| p.name.clone()).collect();
    assert_eq!(got, vec!["a.txt", "b.txt", "c.txt"]);
    assert_eq!(composed.attachments[1].data, b"b.txt".to_vec());
    assert_eq!(composed.html_body, b"hi".to_vec());
}

#[test]
fn malformed_mime_is_a_content_type_error() {
    let attachment = MailAttachment { path: "unused", name: "x.bin", mime: "not-a-mime-type" };
    let res = pack_attachment(&attachment, b"data".to_vec());
    assert!(matches!(res, Err(ErrorReport::ContentType { .. })));

    let mailer = Mailer::init(test_config());
    let to = vec![identity("alice@example.com")];
    let message = b"hi".to_vec();
    let template = b"{{contents}}".to_vec();
    let attachments = vec![(
        MailAttachment { path: "unused", name: "x.bin", mime: "not-a-mime-type" },
        b"data".to_vec(),
    )];
    let res = mailer.compose(to, None, String::from("s"), &message, &template, attachments);
    assert!(matches!(res, Err(ErrorReport::ContentType { .. })));
}

#[test]
fn well_formed_mime_is_accepted() {
    let attachment = MailAttachment { path: "unused", name: "x.txt", mime: "text/plain" };
    let part = pack_attachment(&attachment, b"data".to_vec()).unwrap();
    assert_eq!(part.name, "x.txt");
    assert_eq!(part.mime, "text/plain");
    assert_eq!(part.data, b"data".to_vec());
}

#[test]
fn compose_keeps_recipients_and_identities() {
    let mailer = Mailer::init(test_config());
    let to = vec![identity("alice@example.com"), identity("bob@example.com")];
    let cc = vec![identity("carol@example.com")];
    let message = b"hi".to_vec();
    let template = b"{{contents}}".to_vec();
    let composed = mailer
        .compose(to, Some(cc), String::from("subject"), &message, &template, Vec::new())
        .unwrap();
    assert_eq!(composed.from_addrs.local, b"noreply".to_vec());
    assert_eq!(composed.from_addrs.domain, b"example.com".to_vec());
    assert_eq!(composed.reply_to.local, b"support".to_vec());
    assert_eq!(composed.to_addrs.len(), 2);
    assert_eq!(composed.to_addrs[1].local, b"bob".to_vec());
    assert_eq!(composed.cc_addrs.len(), 1);
    assert_eq!(composed.subject, "subject");
}

#[test]
fn positive_completion_is_success() {
    assert!(is_positive_completion(2));
    assert!(!is_positive_completion(4));
    assert!(!is_positive_completion(5));
    let lines = vec![String::from("250 Ok: queued")];
    assert!(evaluate_delivery(2, &lines).is_ok());
}

#[test]
fn rejection_carries_joined_response_lines() {
    let lines = vec![String::from("554 rejected"), String::from("try later")];
    let res = evaluate_delivery(5, &lines);
    match res {
        Err(ErrorReport::MailSentResponse { msg }) => {
            assert_eq!(msg, "554 rejected\ntry later\n");
        },
        other => panic!("expected a rejection, got {:?}", other.is_ok()),
    }
    let res = evaluate_delivery(4, &Vec::new());
    match res {
        Err(ErrorReport::MailSentResponse { msg }) => assert_eq!(msg, ""),
        _ => panic!("expected a rejection"),
    }
}

#[test]
fn mail_sent_response_keeps_message() {
    let report = mailkit::error::error_mail_sent_response("550 no such user\n");
    match report {
        ErrorReport::MailSentResponse { msg } => assert_eq!(msg, "550 no such user\n"),
        _ => panic!("wrong variant"),
    }
}

#[test]
fn identity_parsing_accepts_one_at_sign_only() {
    let id = MailIdentity::new(Some(b"Alice".to_vec()), &b"alice@example.com".to_vec()).unwrap();
    assert_eq!(id.name, Some(b"Alice".to_vec()));
    assert_eq!(id.local, b"alice".to_vec());
    assert_eq!(id.domain, b"example.com".to_vec());

    for bad in ["aliceexample.com", "a@b@c", "@example.com", "alice@", "@", ""] {
        let res = MailIdentity::new(None, &bad.as_bytes().to_vec());
        assert!(matches!(res, Err(ErrorReport::Assembly { .. })), "accepted {:?}", bad);
    }
}
