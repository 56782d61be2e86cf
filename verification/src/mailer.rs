//! The mail composition and delivery pipeline: template resolution with
//! language fallback, attachment packaging, multipart message assembly, and
//! classification of the SMTP server's final reply.
//!
//! Text that came from or goes to disk or the wire is held as UTF-8 bytes;
//! the caller performs the reads, the sends, and hands the results in as
//! plain values.
use vstd::prelude::*;

use crate::error::ErrorReport;
use crate::text::{matches_at, occurs, replace_all, replace_bytes, sub_bytes, append_bytes};

verus! {

/// The byte of `@`, the separator inside a mail address.
pub const BYTE_AT: u8 = 64;

/// The byte of `/`, the path separator.
pub const BYTE_SLASH: u8 = 47;

/// The placeholder inside the template filename pattern that the language
/// code is substituted into: `{lang}`.
pub open spec fn lang_token() -> Seq<u8> {
    seq![123u8, 108u8, 97u8, 110u8, 103u8, 125u8]
}

/// The placeholder inside a template's text that the message body is
/// substituted into: `{{contents}}`.
pub open spec fn contents_token() -> Seq<u8> {
    seq![123u8, 123u8, 99u8, 111u8, 110u8, 116u8, 101u8, 110u8, 116u8, 115u8, 125u8, 125u8]
}

fn lang_token_vec() -> (v: Vec<u8>)
    ensures
        v@ == lang_token(),
{
    let mut v: Vec<u8> = Vec::new();
    v.push(123);
    v.push(108);
    v.push(97);
    v.push(110);
    v.push(103);
    v.push(125);
    proof {
        assert(v@ =~= lang_token());
    }
    v
}

fn contents_token_vec() -> (v: Vec<u8>)
    ensures
        v@ == contents_token(),
{
    let mut v: Vec<u8> = Vec::new();
    v.push(123);
    v.push(123);
    v.push(99);
    v.push(111);
    v.push(110);
    v.push(116);
    v.push(101);
    v.push(110);
    v.push(116);
    v.push(115);
    v.push(125);
    v.push(125);
    proof {
        assert(v@ =~= contents_token());
    }
    v
}

fn clone_bytes(v: &Vec<u8>) -> (r: Vec<u8>)
    ensures
        r@ == v@,
{
    let r = sub_bytes(v.as_slice(), 0, v.len());
    proof {
        assert(v@.subrange(0, v@.len() as int) =~= v@);
    }
    r
}

/// A mail identity: an optional display name and an address split into
/// local part and domain.
#[derive(Debug)]
pub struct MailIdentity {
    pub name: Option<Vec<u8>>,
    pub local: Vec<u8>,
    pub domain: Vec<u8>,
}

/// The mathematical content of a `MailIdentity`.
pub ghost struct IdentityView {
    pub name: Option<Seq<u8>>,
    pub local: Seq<u8>,
    pub domain: Seq<u8>,
}

impl View for MailIdentity {
    type V = IdentityView;

    open spec fn view(&self) -> IdentityView {
        IdentityView {
            name: match self.name {
                Some(n) => Some(n@),
                None => None,
            },
            local: self.local@,
            domain: self.domain@,
        }
    }
}

/// A well-formed identity: local part and domain are non-empty and hold no
/// `@` of their own.
pub open spec fn identity_wf(id: IdentityView) -> bool {
    &&& id.local.len() > 0
    &&& id.domain.len() > 0
    &&& forall|i: int| 0 <= i < id.local.len() ==> id.local[i] != BYTE_AT
    &&& forall|i: int| 0 <= i < id.domain.len() ==> id.domain[i] != BYTE_AT
}

/// `addr` splits at `i` as `local '@' domain` with non-empty parts and no
/// other `@` anywhere.
pub open spec fn addr_split_ok(addr: Seq<u8>, i: int) -> bool {
    &&& 0 < i
    &&& i + 1 < addr.len()
    &&& addr[i] == BYTE_AT
    &&& forall|j: int| 0 <= j < addr.len() && j != i ==> addr[j] != BYTE_AT
}

/// `addr` holds exactly one `@`, with text on both sides of it.
pub open spec fn addr_wf(addr: Seq<u8>) -> bool {
    exists|i: int| addr_split_ok(addr, i)
}

impl MailIdentity {
    /// Splits `address` at its single `@` into local part and domain; an
    /// address without exactly one well-placed `@` is rejected.
    pub fn new(name: Option<Vec<u8>>, address: &Vec<u8>) -> (r: Result<MailIdentity, ErrorReport>)
        ensures
            r is Ok <==> addr_wf(address@),
            r matches Ok(id) ==> {
                &&& addr_split_ok(address@, id.local@.len() as int)
                &&& id.local@ == address@.subrange(0, id.local@.len() as int)
                &&& id.domain@ == address@.subrange(
                    id.local@.len() as int + 1,
                    address@.len() as int,
                )
                &&& id@.name == (match name {
                    Some(n) => Some(n@),
                    None => None::<Seq<u8>>,
                })
                &&& identity_wf(id@)
            },
            r matches Err(e) ==> e matches ErrorReport::Assembly { .. },
    {
        let n = address.len();
        let mut i: usize = 0;
        let mut at_pos: usize = 0;
        let mut at_pos2: usize = 0;
        let mut count: usize = 0;
        while i < n
            invariant
                n == address@.len(),
                i <= n,
                count == 0 ==> forall|j: int| 0 <= j < i ==> address@[j] != BYTE_AT,
                count >= 1 ==> at_pos < i && address@[at_pos as int] == BYTE_AT,
                count == 1 ==> forall|j: int|
                    0 <= j < i && j != at_pos ==> address@[j] != BYTE_AT,
                count >= 2 ==> at_pos < at_pos2 < i && address@[at_pos2 as int] == BYTE_AT,
                count <= i,
            decreases n - i,
        {
            if address[i] == BYTE_AT {
                if count == 0 {
                    at_pos = i;
                } else if count == 1 {
                    at_pos2 = i;
                }
                count += 1;
            }
            i += 1;
        }
        if count == 0 {
            proof {
                assert forall|k: int| !addr_split_ok(address@, k) by {
                    if addr_split_ok(address@, k) {
                        assert(address@[k] == BYTE_AT);
                    }
                }
            }
            return Err(ErrorReport::Assembly { msg: "malformed mail address".to_owned() });
        }
        if count >= 2 {
            proof {
                assert forall|k: int| !addr_split_ok(address@, k) by {
                    if addr_split_ok(address@, k) {
                        if k != at_pos {
                            assert(address@[at_pos as int] != BYTE_AT);
                        } else {
                            assert(address@[at_pos2 as int] != BYTE_AT);
                        }
                    }
                }
            }
            return Err(ErrorReport::Assembly { msg: "malformed mail address".to_owned() });
        }
        if at_pos == 0 || at_pos + 1 >= n {
            proof {
                assert forall|k: int| !addr_split_ok(address@, k) by {
                    if addr_split_ok(address@, k) {
                        if k != at_pos {
                            assert(address@[at_pos as int] != BYTE_AT);
                        }
                        assert(k == at_pos);
                    }
                }
            }
            return Err(ErrorReport::Assembly { msg: "malformed mail address".to_owned() });
        }
        let local = sub_bytes(address.as_slice(), 0, at_pos);
        let domain = sub_bytes(address.as_slice(), at_pos + 1, n);
        proof {
            assert(addr_split_ok(address@, at_pos as int));
            assert(local@.len() == at_pos as int);
            assert forall|j: int| 0 <= j < local@.len() implies local@[j] != BYTE_AT by {
                assert(local@[j] == address@[j]);
            }
            assert forall|j: int| 0 <= j < domain@.len() implies domain@[j] != BYTE_AT by {
                assert(domain@[j] == address@[at_pos + 1 + j]);
            }
        }
        Ok(MailIdentity { name, local, domain })
    }
}

/// The immutable mail configuration: identities, transport coordinates, and
/// the template directory, filename pattern and language codes.
#[derive(Debug)]
pub struct Config {
    pub from_addrs: MailIdentity,
    pub reply_to: MailIdentity,
    pub server: String,
    pub port: u16,
    pub user_name: String,
    pub password: String,
    pub template_dir_path: Vec<u8>,
    pub template_name_format: Vec<u8>,
    pub languages: Vec<Vec<u8>>,
    pub default_language: Vec<u8>,
}

/// A file attachment as the caller hands it in: where the file lives, the
/// name it is shown under, and its declared MIME type.
#[derive(Debug)]
pub struct MailAttachment<'a> {
    pub path: &'a str,
    pub name: &'a str,
    pub mime: &'a str,
}

/// An attachment after packaging: display name, validated MIME type, and
/// the file's bytes.
#[derive(Debug)]
pub struct AttachmentPart {
    pub name: String,
    pub mime: String,
    pub data: Vec<u8>,
}

/// One fully assembled multipart message: the headers' identities, the
/// recipient lists, the subject, the HTML body part, and the attachment
/// parts in the order they were supplied.
#[derive(Debug)]
pub struct ComposedMessage {
    pub from_addrs: MailIdentity,
    pub reply_to: MailIdentity,
    pub to_addrs: Vec<MailIdentity>,
    pub cc_addrs: Vec<MailIdentity>,
    pub subject: String,
    pub html_body: Vec<u8>,
    pub attachments: Vec<AttachmentPart>,
}

/// The language a template is resolved for: the caller's choice if present,
/// else the configured default.
pub open spec fn chosen_language(language: Option<Seq<u8>>, default_language: Seq<u8>) -> Seq<u8> {
    match language {
        Some(l) => l,
        None => default_language,
    }
}

/// The template's file name: the pattern with the language code substituted
/// for the `{lang}` placeholder.
pub open spec fn template_file_name(pattern: Seq<u8>, lang: Seq<u8>) -> Seq<u8> {
    replace_all(pattern, lang_token(), lang)
}

/// A relative file name under a directory, with exactly one separator
/// between them.
pub open spec fn joined_path(dir: Seq<u8>, name: Seq<u8>) -> Seq<u8> {
    if dir.len() == 0 {
        name
    } else if dir[dir.len() - 1] == BYTE_SLASH {
        dir + name
    } else {
        dir + seq![BYTE_SLASH] + name
    }
}

/// Where the template for `language` is read from, given configuration `c`.
pub open spec fn template_path_spec(c: Config, language: Option<Seq<u8>>) -> Seq<u8> {
    joined_path(
        c.template_dir_path@,
        template_file_name(
            c.template_name_format@,
            chosen_language(language, c.default_language@),
        ),
    )
}

/// A template's text with the message substituted for the `{{contents}}`
/// placeholder; a template without the placeholder renders unchanged.
pub open spec fn rendered_body(template: Seq<u8>, message: Seq<u8>) -> Seq<u8> {
    replace_all(template, contents_token(), message)
}

pub open spec fn opt_bytes_view(o: Option<&Vec<u8>>) -> Option<Seq<u8>> {
    match o {
        Some(v) => Some(v@),
        None => None,
    }
}

/// Substitutes the message into the template's placeholder, producing the
/// HTML body part's text.
pub fn render_template(template: &Vec<u8>, message: &Vec<u8>) -> (r: Vec<u8>)
    ensures
        r@ == rendered_body(template@, message@),
{
    let token = contents_token_vec();
    replace_bytes(template.as_slice(), token.as_slice(), message.as_slice())
}

/// The mail pipeline, bound to one configuration. The configuration is
/// read-only and shared by every send.
#[derive(Debug)]
pub struct Mailer {
    pub config: Config,
}

impl Mailer {
    pub fn init(config: Config) -> (m: Mailer)
        ensures
            m.config == config,
    {
        Mailer { config }
    }

    /// Template Resolver, path half: the file the resolved language's
    /// template is read from. The resolved language alone names the file;
    /// no other language is ever consulted.
    pub fn template_path(&self, language: Option<&Vec<u8>>) -> (p: Vec<u8>)
        ensures
            p@ == template_path_spec(self.config, opt_bytes_view(language)),
    {
        let lang: &Vec<u8> = match language {
            Some(l) => l,
            None => &self.config.default_language,
        };
        let token = lang_token_vec();
        let name = replace_bytes(
            self.config.template_name_format.as_slice(),
            token.as_slice(),
            lang.as_slice(),
        );
        let dir = &self.config.template_dir_path;
        let mut p: Vec<u8> = Vec::new();
        append_bytes(&mut p, dir.as_slice());
        if dir.len() > 0 && dir[dir.len() - 1] != BYTE_SLASH {
            p.push(BYTE_SLASH);
        }
        append_bytes(&mut p, name.as_slice());
        proof {
            let d = dir@;
            let nm = name@;
            if d.len() == 0 {
                assert(p@ =~= joined_path(d, nm));
            } else if d[d.len() - 1] == BYTE_SLASH {
                assert(p@ =~= d + nm);
            } else {
                assert(p@ =~= d + seq![BYTE_SLASH] + nm);
            }
        }
        p
    }
}

/// Whether a MIME type string is well-formed. What exactly is accepted is
/// the MIME grammar; it depends on the string alone.
pub uninterp spec fn content_type_ok(s: Seq<char>) -> bool;

/// Relies on lettre's `ContentType::parse` (a parse of the MIME grammar):
/// whether it accepts a string depends on the string alone.
#[verifier::external_body]
fn check_content_type(mime: &str) -> (ok: bool)
    ensures
        ok <==> content_type_ok(mime@),
{
    lettre::message::header::ContentType::parse(mime).is_ok()
}

/// Attachment Packager: wraps a file's bytes as a named binary part under
/// the declared content type; a malformed MIME type string is rejected
/// before anything else happens to the attachment.
pub fn pack_attachment<'a>(attachment: &MailAttachment<'a>, data: Vec<u8>) -> (r: Result<
    AttachmentPart,
    ErrorReport,
>)
    ensures
        r is Ok <==> content_type_ok(attachment.mime@),
        r matches Ok(p) ==> {
            &&& p.name@ == attachment.name@
            &&& p.mime@ == attachment.mime@
            &&& p.data == data
        },
        r matches Err(e) ==> e matches ErrorReport::ContentType { msg } && msg@
            == attachment.mime@,
{
    if check_content_type(attachment.mime) {
        Ok(
            AttachmentPart {
                name: attachment.name.to_owned(),
                mime: attachment.mime.to_owned(),
                data,
            },
        )
    } else {
        Err(ErrorReport::ContentType { msg: attachment.mime.to_owned() })
    }
}

fn clone_identity(id: &MailIdentity) -> (r: MailIdentity)
    ensures
        r@ == id@,
{
    MailIdentity {
        name: match &id.name {
            Some(n) => Some(clone_bytes(n)),
            None => None,
        },
        local: clone_bytes(&id.local),
        domain: clone_bytes(&id.domain),
    }
}

impl Mailer {
    /// Message Assembler: one well-formed multipart message out of the
    /// configured identities, the recipient lists, the subject, the HTML
    /// body part, and the attachment parts. The attachments keep exactly
    /// the order they were supplied in.
    pub fn assemble(
        &self,
        to_addrs: Vec<MailIdentity>,
        cc_addrs: Option<Vec<MailIdentity>>,
        subject: String,
        html_body: Vec<u8>,
        attachments: Vec<AttachmentPart>,
    ) -> (m: ComposedMessage)
        requires
            to_addrs@.len() >= 1,
        ensures
            m.from_addrs@ == self.config.from_addrs@,
            m.reply_to@ == self.config.reply_to@,
            m.to_addrs == to_addrs,
            cc_addrs matches Some(c) ==> m.cc_addrs == c,
            cc_addrs is None ==> m.cc_addrs@.len() == 0,
            m.subject == subject,
            m.html_body == html_body,
            m.attachments == attachments,
    {
        ComposedMessage {
            from_addrs: clone_identity(&self.config.from_addrs),
            reply_to: clone_identity(&self.config.reply_to),
            to_addrs,
            cc_addrs: match cc_addrs {
                Some(c) => c,
                None => Vec::new(),
            },
            subject,
            html_body,
            attachments,
        }
    }

    /// The whole composition pipeline for one send: renders the template's
    /// text with the message, packages each attachment, and assembles the
    /// multipart message. The caller reads the template file named by
    /// `template_path` and each attachment's file, and hands their bytes in.
    pub fn compose<'a>(
        &self,
        to_addrs: Vec<MailIdentity>,
        cc_addrs: Option<Vec<MailIdentity>>,
        subject: String,
        message: &Vec<u8>,
        template_text: &Vec<u8>,
        attachments: Vec<(MailAttachment<'a>, Vec<u8>)>,
    ) -> (r: Result<ComposedMessage, ErrorReport>)
        requires
            to_addrs@.len() >= 1,
        ensures
            r is Ok <==> (forall|i: int|
                0 <= i < attachments@.len() ==> content_type_ok(attachments@[i].0.mime@)),
            r matches Ok(m) ==> {
                &&& m.html_body@ == rendered_body(template_text@, message@)
                &&& m.from_addrs@ == self.config.from_addrs@
                &&& m.reply_to@ == self.config.reply_to@
                &&& m.to_addrs == to_addrs
                &&& (cc_addrs matches Some(c) ==> m.cc_addrs == c)
                &&& (cc_addrs is None ==> m.cc_addrs@.len() == 0)
                &&& m.subject == subject
                &&& m.attachments@.len() == attachments@.len()
                &&& forall|i: int|
                    0 <= i < attachments@.len() ==> {
                        &&& (#[trigger] m.attachments@[i]).name@ == attachments@[i].0.name@
                        &&& m.attachments@[i].mime@ == attachments@[i].0.mime@
                        &&& m.attachments@[i].data@ == attachments@[i].1@
                    }
            },
            r matches Err(e) ==> e matches ErrorReport::ContentType { .. },
    {
        let html_body = render_template(template_text, message);
        let mut parts: Vec<AttachmentPart> = Vec::new();
        let mut idx: usize = 0;
        while idx < attachments.len()
            invariant
                idx <= attachments@.len(),
                parts@.len() == idx,
                forall|i: int| 0 <= i < idx ==> content_type_ok(attachments@[i].0.mime@),
                forall|i: int|
                    0 <= i < idx ==> {
                        &&& (#[trigger] parts@[i]).name@ == attachments@[i].0.name@
                        &&& parts@[i].mime@ == attachments@[i].0.mime@
                        &&& parts@[i].data@ == attachments@[i].1@
                    },
            decreases attachments@.len() - idx,
        {
            let pair = &attachments[idx];
            let data = clone_bytes(&pair.1);
            match pack_attachment(&pair.0, data) {
                Ok(p) => {
                    parts.push(p);
                },
                Err(e) => {
                    return Err(e);
                },
            }
            idx += 1;
        }
        Ok(self.assemble(to_addrs, cc_addrs, subject, html_body, parts))
    }
}

/// An SMTP final reply code is a success exactly when its severity digit is
/// in the positive-completion class.
pub fn is_positive_completion(severity: u8) -> (r: bool)
    ensures
        r <==> severity == 2,
{
    severity == 2
}

/// The server's response lines, each terminated by a newline, in their
/// original order.
pub open spec fn joined_lines(lines: Seq<Seq<char>>) -> Seq<char>
    decreases lines.len(),
{
    if lines.len() == 0 {
        Seq::empty()
    } else {
        joined_lines(lines.drop_last()) + lines.last() + seq!['\n']
    }
}

pub open spec fn line_views(lines: Seq<String>) -> Seq<Seq<char>> {
    lines.map_values(|l: String| l@)
}

/// Concatenates the response lines, terminating each with a newline.
pub fn join_response_lines(lines: &Vec<String>) -> (r: String)
    ensures
        r@ == joined_lines(line_views(lines@)),
{
    let mut acc = String::new();
    let mut i: usize = 0;
    proof {
        assert(line_views(lines@).take(0) =~= Seq::<Seq<char>>::empty());
    }
    while i < lines.len()
        invariant
            i <= lines@.len(),
            acc@ == joined_lines(line_views(lines@).take(i as int)),
        decreases lines@.len() - i,
    {
        let ghost lv = line_views(lines@);
        let line: &String = &lines[i];
        acc.append(line.as_str());
        acc.append("\n");
        i += 1;
        proof {
            reveal_strlit("\n");
            assert("\n"@ =~= seq!['\n']);
            assert(lv.take(i as int).drop_last() =~= lv.take(i - 1));
            assert(lv.take(i as int).last() == lv[i - 1]);
            assert(acc@ =~= joined_lines(lv.take(i - 1)) + lv[i - 1] + seq!['\n']);
        }
    }
    proof {
        assert(line_views(lines@).take(lines@.len() as int) =~= line_views(lines@));
    }
    acc
}

/// Delivery Evaluator: a final reply in the positive-completion class is a
/// success; every other class is a rejection whose message is the server's
/// response lines joined in order, each ended by a newline.
pub fn evaluate_delivery(severity: u8, lines: &Vec<String>) -> (r: Result<(), ErrorReport>)
    ensures
        r is Ok <==> severity == 2,
        r matches Err(e) ==> e matches ErrorReport::MailSentResponse { msg } && msg@
            == joined_lines(line_views(lines@)),
{
    if is_positive_completion(severity) {
        Ok(())
    } else {
        let text = join_response_lines(lines);
        Err(crate::error::error_mail_sent_response(text.as_str()))
    }
}

/// Law: template resolution and rendering are functions of the language,
/// the configuration and the template's text alone — two resolutions of
/// the same pair give byte-identical results.
pub proof fn lemma_template_resolution_deterministic(
    c: Config,
    language: Option<Seq<u8>>,
    template: Seq<u8>,
    message: Seq<u8>,
    p1: Seq<u8>,
    p2: Seq<u8>,
    b1: Seq<u8>,
    b2: Seq<u8>,
)
    requires
        p1 == template_path_spec(c, language),
        p2 == template_path_spec(c, language),
        b1 == rendered_body(template, message),
        b2 == rendered_body(template, message),
    ensures
        p1 == p2,
        b1 == b2,
{
}

/// Law: with no caller-supplied language the resolved template is the one
/// named by the configured default language, not any other.
pub proof fn lemma_language_fallback(c: Config)
    ensures
        chosen_language(None, c.default_language@) == c.default_language@,
        template_path_spec(c, None) == template_path_spec(c, Some(c.default_language@)),
{
}

/// Law: rendering a template whose one placeholder stands between `pre` and
/// `post` puts the message exactly there, so the message is a substring of
/// the result; and wherever the surrounding text and the message do not
/// re-form the placeholder token, the token is gone from the result.
pub proof fn lemma_render_round_trip(pre: Seq<u8>, post: Seq<u8>, message: Seq<u8>)
    requires
        forall|j: int|
            0 <= j < pre.len() ==> !matches_at(pre + contents_token() + post, contents_token(), j),
        !occurs(post, contents_token()),
    ensures
        rendered_body(pre + contents_token() + post, message) == pre + message + post,
        matches_at(rendered_body(pre + contents_token() + post, message), message, pre.len() as int),
        !occurs(pre + message + post, contents_token()) ==> !occurs(
            rendered_body(pre + contents_token() + post, message),
            contents_token(),
        ),
{
    assert(contents_token().len() == 12);
    crate::text::lemma_replace_decompose(pre, contents_token(), post, message);
    assert((pre + message + post).subrange(pre.len() as int, pre.len() as int + message.len() as int) =~= message);
}

/// Law: rendering any template that holds the placeholder token puts the
/// message into the result, wherever and however often the token stands.
pub proof fn lemma_render_contains_message(template: Seq<u8>, message: Seq<u8>)
    requires
        occurs(template, contents_token()),
    ensures
        exists|i: int| matches_at(rendered_body(template, message), message, i),
{
    assert(contents_token().len() == 12);
    crate::text::lemma_replace_inserts(template, contents_token(), message);
    let i = choose|i: int| matches_at(replace_all(template, contents_token(), message), message, i);
    assert(matches_at(rendered_body(template, message), message, i));
}

} // verus!
