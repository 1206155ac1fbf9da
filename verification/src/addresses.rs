//! Recipient lists: the addresses mail-parser reads off a `To:` header, and
//! the mailboxes lettre accepts to send to.
use vstd::prelude::*;
use vstd::string::StringSliceAdditionalSpecFns;
use vstd::utf8::encode_utf8;

use crate::errors::{MailError, MailErrorKind, MailResult};
use crate::text::{chars_of, opt_view, push_all, string_of, strings_view};

verus! {

/// The display name and address of each recipient mail-parser reads off a
/// message whose bytes are `raw`, in order; `None` where the bytes do not
/// parse or carry no `To:` header.
pub uninterp spec fn to_header_addresses(raw: Seq<u8>) -> Option<Seq<(Option<Seq<char>>, Option<Seq<char>>)>>;

/// What lettre answers when asked to read `text` as a mailbox: `None` when
/// it accepts it, else the text of its error.
pub uninterp spec fn mailbox_refusal(text: Seq<char>) -> Option<Seq<char>>;

/// A recipient as character sequences.
pub open spec fn addr_view(a: (Option<String>, Option<String>)) -> (Option<Seq<char>>, Option<Seq<char>>) {
    (opt_view(a.0), opt_view(a.1))
}

/// Parse a message with `mail_parser::MessageParser` (minimal headers, other
/// headers as text) and list the recipients of its `To:` header, group
/// members included, each as its display name and address. The claim is that
/// the list is a function of the bytes alone, named `to_header_addresses`.
#[verifier::external_body]
fn parse_to_header(raw: &[u8]) -> (r: Option<Vec<(Option<String>, Option<String>)>>)
    ensures
        match r {
            None => to_header_addresses(raw@) is None,
            Some(v) => to_header_addresses(raw@) == Some(v@.map_values(|a: (Option<String>, Option<String>)| addr_view(a))),
        },
{
    let parser = mail_parser::MessageParser::new().with_minimal_headers().default_header_text();
    let message = parser.parse(raw)?;
    let to = message.to()?;
    Some(to.iter().map(|a| (a.name.as_deref().map(str::to_string), a.address.as_deref().map(str::to_string))).collect())
}

/// Read `text` as a `lettre::message::Mailbox` (`FromStr`). The claim is that
/// whether it is accepted, and the text of the error when it is not, depend
/// on the text alone, named `mailbox_refusal`; the mailbox itself is dropped.
#[verifier::external_body]
fn check_mailbox(text: &str) -> (r: Result<(), String>)
    ensures
        match r {
            Ok(_) => mailbox_refusal(text@) is None,
            Err(e) => mailbox_refusal(text@) == Some(e@),
        },
{
    text.parse::<lettre::message::Mailbox>().map(|_| ()).map_err(|error| error.to_string())
}

/// The mailbox text for a recipient: `name <address>` when it has a name
/// that is not empty, else the bare address.
pub open spec fn mailbox_text(name: Option<Seq<char>>, address: Seq<char>) -> Seq<char> {
    match name {
        Some(n) => if n.len() > 0 {
            n + " <"@ + address + ">"@
        } else {
            address
        },
        None => address,
    }
}

/// The mailbox texts of the recipients, in order; the first recipient
/// without an address, or whose text lettre refuses, is an error.
pub open spec fn mailbox_texts(addrs: Seq<(Option<Seq<char>>, Option<Seq<char>>)>) -> Result<Seq<Seq<char>>, Seq<char>>
    decreases addrs.len(),
{
    if addrs.len() == 0 {
        Ok(seq![])
    } else {
        match addrs[0].1 {
            None => Err("recipient address is missing"@),
            Some(address) => {
                let t = mailbox_text(addrs[0].0, address);
                match mailbox_refusal(t) {
                    Some(e) => Err(e),
                    None => match mailbox_texts(addrs.drop_first()) {
                        Ok(rest) => Ok(seq![t] + rest),
                        Err(e) => Err(e),
                    },
                }
            },
        }
    }
}

/// The bytes mail-parser reads an address list in: a `To:` header holding
/// it, and the blank line that ends the headers.
pub open spec fn to_header_bytes(value: Seq<char>) -> Seq<u8> {
    encode_utf8("To: "@ + value + "\r\n\r\n"@)
}

/// What parsing an address list gives: its mailbox texts, or the message of
/// the error.
pub open spec fn parsed_mailboxes(value: Seq<char>) -> Result<Seq<Seq<char>>, Seq<char>> {
    match to_header_addresses(to_header_bytes(value)) {
        None => Err("failed to parse email address list"@),
        Some(addrs) => match mailbox_texts(addrs) {
            Err(e) => Err(e),
            Ok(ts) => if ts.len() == 0 {
                Err("at least one recipient address is required"@)
            } else {
                Ok(ts)
            },
        },
    }
}

/// The first mailbox of an address list.
pub open spec fn parsed_mailbox(value: Seq<char>) -> Result<Seq<char>, Seq<char>> {
    match parsed_mailboxes(value) {
        Err(e) => Err(e),
        Ok(ts) => Ok(ts[0]),
    }
}

fn mailbox_text_of(name: &Option<String>, address: &String) -> (r: String)
    ensures
        r@ == mailbox_text(opt_view(*name), address@),
{
    match name {
        Some(n) => if !n.as_str().is_empty() {
            let mut out = chars_of(n.as_str());
            push_all(&mut out, chars_of(" <").as_slice());
            push_all(&mut out, chars_of(address.as_str()).as_slice());
            push_all(&mut out, chars_of(">").as_slice());
            string_of(out.as_slice())
        } else {
            address.clone()
        },
        None => address.clone(),
    }
}

/// Parse an address list the way a `To:` header is read, into the texts of
/// the mailboxes lettre accepts; an empty list is refused.
pub fn parse_mailboxes(value: &str) -> (r: MailResult<Vec<String>>)
    ensures
        match parsed_mailboxes(value@) {
            Ok(ts) => r matches Ok(v) && strings_view(v@) == ts,
            Err(e) => r matches Err(err) && err.kind == MailErrorKind::InvalidInput && err.message@ == e,
        },
{
    let mut header = chars_of("To: ");
    push_all(&mut header, chars_of(value).as_slice());
    push_all(&mut header, chars_of("\r\n\r\n").as_slice());
    let raw = string_of(header.as_slice());
    let raw_str = raw.as_str();
    assert(raw_str.spec_bytes() == to_header_bytes(value@));
    let addrs = match parse_to_header(raw_str.as_bytes()) {
        Some(a) => a,
        None => {
            return Err(MailError::invalid_input("failed to parse email address list"));
        },
    };
    let ghost all = addrs@.map_values(|a: (Option<String>, Option<String>)| addr_view(a));
    let mut out: Vec<String> = Vec::new();
    let mut i: usize = 0;
    assert(all.skip(0) =~= all);
    while i < addrs.len()
        invariant
            i <= addrs@.len(),
            all == addrs@.map_values(|a: (Option<String>, Option<String>)| addr_view(a)),
            to_header_addresses(to_header_bytes(value@)) == Some(all),
            mailbox_texts(all) == match mailbox_texts(all.skip(i as int)) {
                Ok(rest) => Ok(strings_view(out@) + rest),
                Err(e) => Err(e),
            },
        decreases addrs@.len() - i,
    {
        assert(all.skip(i as int)[0] == addr_view(addrs@[i as int]));
        assert(all.skip(i as int).drop_first() =~= all.skip(i + 1));
        let address = match &addrs[i].1 {
            Some(a) => a,
            None => {
                return Err(MailError::invalid_input("recipient address is missing"));
            },
        };
        let text = mailbox_text_of(&addrs[i].0, address);
        match check_mailbox(text.as_str()) {
            Ok(()) => {},
            Err(e) => {
                return Err(MailError::new(MailErrorKind::InvalidInput, e));
            },
        }
        let ghost before = out@;
        out.push(text);
        assert(strings_view(out@) =~= strings_view(before) + seq![text@]);
        proof {
            match mailbox_texts(all.skip(i + 1)) {
                Ok(rest) => {
                    assert(strings_view(before) + (seq![text@] + rest) =~= strings_view(out@) + rest);
                },
                Err(_) => {},
            }
        }
        i += 1;
    }
    assert(all.skip(i as int) =~= Seq::<(Option<Seq<char>>, Option<Seq<char>>)>::empty());
    assert(strings_view(out@) + Seq::<Seq<char>>::empty() =~= strings_view(out@));
    if out.len() == 0 {
        return Err(MailError::invalid_input("at least one recipient address is required"));
    }
    Ok(out)
}

/// The first mailbox of an address list.
pub fn parse_mailbox(value: &str) -> (r: MailResult<String>)
    ensures
        match parsed_mailbox(value@) {
            Ok(t) => r matches Ok(s) && s@ == t,
            Err(e) => r matches Err(err) && err.kind == MailErrorKind::InvalidInput && err.message@ == e,
        },
{
    let mut list = parse_mailboxes(value)?;
    if list.len() == 0 {
        return Err(MailError::invalid_input("address list was empty"));
    }
    Ok(list.swap_remove(0))
}

} // verus!
