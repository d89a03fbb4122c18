//! Composing a mail message from an address list and the configuration.

use vstd::prelude::*;
use vstd::string::*;
use vstd::utf8::encode_utf8;
use crate::clock::now_millis;
use crate::text::{find_char, first_index_of, lemma_split_pieces_nonempty, split_pieces};
use crate::types::{Config, Message};

verus! {

/// The characters with the Unicode White_Space property, which is what
/// `char::is_whitespace` tests.
pub open spec fn is_white_space(c: char) -> bool {
    let u = c as u32;
    (0x9 <= u && u <= 0xD) || u == 0x20 || u == 0x85 || u == 0xA0 || u == 0x1680 || (0x2000 <= u && u
        <= 0x200A) || u == 0x2028 || u == 0x2029 || u == 0x202F || u == 0x205F || u == 0x3000
}

/// A text without its leading whitespace.
pub open spec fn trim_front(s: Seq<char>) -> Seq<char>
    decreases s.len(),
{
    if s.len() > 0 && is_white_space(s[0]) {
        trim_front(s.drop_first())
    } else {
        s
    }
}

/// A text without its trailing whitespace.
pub open spec fn trim_back(s: Seq<char>) -> Seq<char>
    decreases s.len(),
{
    if s.len() > 0 && is_white_space(s.last()) {
        trim_back(s.drop_last())
    } else {
        s
    }
}

/// A text with its leading and trailing whitespace removed.
pub open spec fn trimmed_of(s: Seq<char>) -> Seq<char> {
    trim_back(trim_front(s))
}

/// Relies on `str::trim`: leading and trailing characters for which
/// `char::is_whitespace` holds (Unicode White_Space) removed.
#[verifier::external_body]
fn trim_text<'a>(s: &'a str) -> (r: &'a str)
    ensures
        r@ == trimmed_of(s@),
{
    s.trim()
}

/// The pieces trimmed, without those that are empty once trimmed.
pub open spec fn kept_addresses(ps: Seq<Seq<char>>) -> Seq<Seq<char>>
    decreases ps.len(),
{
    if ps.len() == 0 {
        Seq::empty()
    } else {
        let kept = kept_addresses(ps.drop_last());
        let t = trimmed_of(ps.last());
        if t.len() == 0 {
            kept
        } else {
            kept.push(t)
        }
    }
}

/// The recipients of an address list: where it holds a comma, each trimmed
/// non-empty piece; else the list as it stands.
pub open spec fn recipients(email: Seq<char>) -> Seq<Seq<char>> {
    if first_index_of(email, ',') is Some {
        kept_addresses(split_pieces(email, ','))
    } else {
        seq![email]
    }
}

/// What a sequence of owned texts holds.
pub open spec fn texts(v: Seq<String>) -> Seq<Seq<char>> {
    Seq::new(v.len(), |i: int| v[i]@)
}

/// What an optional owned text holds.
pub open spec fn opt_text(o: Option<String>) -> Option<Seq<char>> {
    match o {
        Some(s) => Some(s@),
        None => None,
    }
}

/// The first of three optional texts that is present, else the empty text.
pub open spec fn first_present(a: Option<String>, b: Option<String>, c: Option<String>) -> Seq<char> {
    match a {
        Some(x) => x@,
        None => match b {
            Some(x) => x@,
            None => match c {
                Some(x) => x@,
                None => Seq::empty(),
            },
        },
    }
}

/// A configured address that counts: present and longer than three bytes in UTF-8.
pub open spec fn usable(o: Option<String>) -> Option<Seq<char>> {
    match o {
        Some(x) => if encode_utf8(x@).len() > 3 { Some(x@) } else { None },
        None => None,
    }
}

fn clone_text(s: &String) -> (r: String)
    ensures
        r@ == s@,
{
    s.as_str().to_owned()
}

fn clone_opt(o: &Option<String>) -> (r: Option<String>)
    ensures
        opt_text(r) == opt_text(*o),
{
    match o {
        Some(s) => Some(clone_text(s)),
        None => None,
    }
}

/// The recipients of an address list.
pub fn split_recipients(email: &str) -> (r: Vec<String>)
    ensures
        texts(r@) == recipients(email@),
{
    if find_char(email, ',').is_none() {
        let r = vec![email.to_owned()];
        assert(texts(r@) =~= seq![email@]);
        return r;
    }
    let n = email.unicode_len();
    let mut out: Vec<String> = Vec::new();
    let mut current = String::new();
    let mut i: usize = 0;
    while i < n
        invariant
            n == email@.len(),
            i <= n,
            split_pieces(email@.subrange(0, i as int), ',').len() >= 1,
            split_pieces(email@.subrange(0, i as int), ',').last() == current@,
            texts(out@) == kept_addresses(split_pieces(email@.subrange(0, i as int), ',').drop_last()),
        decreases n - i,
    {
        let ghost prefix = email@.subrange(0, i as int);
        let ghost next = email@.subrange(0, i + 1);
        assert(next.drop_last() =~= prefix);
        let c = email.get_char(i);
        proof {
            lemma_split_pieces_nonempty(prefix, ',');
        }
        if c == ',' {
            let t = trim_text(current.as_str());
            let ghost before = out@;
            if !t.is_empty() {
                out.push(t.to_owned());
            }
            proof {
                let p = split_pieces(prefix, ',');
                assert(split_pieces(next, ',').drop_last() =~= p);
                assert(p.drop_last() =~= p.subrange(0, p.len() - 1));
                if t@.len() == 0 {
                    assert(texts(out@) =~= texts(before));
                } else {
                    assert(texts(out@) =~= texts(before).push(t@));
                }
            }
            current = String::new();
        } else {
            let piece = String::from_str(email.substring_char(i, i + 1));
            current.append(piece.as_str());
            proof {
                let p = split_pieces(prefix, ',');
                assert(split_pieces(next, ',').drop_last() =~= p.drop_last());
            }
        }
        i = i + 1;
    }
    assert(email@.subrange(0, n as int) =~= email@);
    let t = trim_text(current.as_str());
    let ghost before = out@;
    if !t.is_empty() {
        out.push(t.to_owned());
    }
    proof {
        let p = split_pieces(email@, ',');
        lemma_split_pieces_nonempty(email@, ',');
        if t@.len() == 0 {
            assert(texts(out@) =~= texts(before));
        } else {
            assert(texts(out@) =~= texts(before).push(t@));
        }
    }
    out
}

/// A configured address if it counts, as a list of zero or one.
fn usable_list(o: &Option<String>) -> (r: Vec<String>)
    ensures
        texts(r@) == match usable(*o) {
            Some(x) => seq![x],
            None => Seq::<Seq<char>>::empty(),
        },
{
    let mut r: Vec<String> = Vec::new();
    match o {
        Some(x) => {
            let long = x.as_str().as_bytes().len() > 3;
            if long {
                r.push(clone_text(x));
                assert(texts(r@) =~= seq![x@]);
            } else {
                assert(texts(r@) =~= Seq::<Seq<char>>::empty());
            }
        },
        None => {
            assert(texts(r@) =~= Seq::<Seq<char>>::empty());
        },
    }
    r
}

/// Composes a message to the addresses of `email`: the sender and its name
/// come from the configuration (`mail_from`, else the SMTP `from`, else the
/// SMTP user; `mail_from_name`, else the SMTP name); the reply address is
/// `reply` where given, else the configured one; copies go to the configured
/// addresses. Configured addresses of three bytes or fewer are ignored.
/// `_sending` is set to the current time; where the clock cannot be read,
/// the epoch stands in.
pub fn compose_message(email: &str, subject: &str, body: &str, reply: Option<&str>, config: &Config) -> (r: Message)
    ensures
        r.subject@ == subject@,
        r.body@ == body@,
        texts(r.to_addresses@) == recipients(email@),
        opt_text(r.from_address) == Some(first_present(config.mail_from, config.smtp.from, config.smtp.user)),
        opt_text(r.from_name) == Some(first_present(config.mail_from_name, config.smtp.name, None)),
        opt_text(r.reply_to) == match reply {
            Some(x) => Some(x@),
            None => usable(config.mail_reply),
        },
        texts(r.cc@) == match usable(config.mail_cc) {
            Some(x) => seq![x],
            None => Seq::<Seq<char>>::empty(),
        },
        texts(r.bcc@) == match usable(config.mail_bcc) {
            Some(x) => seq![x],
            None => Seq::<Seq<char>>::empty(),
        },
        r._sending is Some,
{
    let from_address = match &config.mail_from {
        Some(x) => clone_text(x),
        None => match &config.smtp.from {
            Some(x) => clone_text(x),
            None => match &config.smtp.user {
                Some(x) => clone_text(x),
                None => String::new(),
            },
        },
    };
    let from_name = match &config.mail_from_name {
        Some(x) => clone_text(x),
        None => match &config.smtp.name {
            Some(x) => clone_text(x),
            None => String::new(),
        },
    };
    let reply_to = match reply {
        Some(x) => Some(x.to_owned()),
        None => match &config.mail_reply {
            Some(x) => {
                let long = x.as_str().as_bytes().len() > 3;
                if long {
                    Some(clone_text(x))
                } else {
                    None
                }
            },
            None => None,
        },
    };
    Message {
        subject: subject.to_owned(),
        body: body.to_owned(),
        to_addresses: split_recipients(email),
        from_address: Some(from_address),
        from_name: Some(from_name),
        reply_to,
        cc: usable_list(&config.mail_cc),
        bcc: usable_list(&config.mail_bcc),
        _sending: Some(
            match now_millis() {
                Some(now) => now,
                None => 0,
            },
        ),
    }
}

} // verus!
