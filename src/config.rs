//! The service's configuration, and the checks it must pass before use.

use crate::data::str_eq;
use crate::errors::ErrorKind;
use crate::identity::{gen_hash, identity_hash, opt_view};
use vstd::prelude::*;

verus! {

/// The service's configuration.
#[derive(Debug)]
pub struct Config {
    /// Top-level address of the blog served, with its protocol.
    pub host: String,
    /// Name of the blog served.
    pub blog_name: String,
    /// A salt for slightly more anonymous identification.
    pub salt: String,
    /// The blog's author, shown as the authority in comments.
    pub author: Author,
    /// How deep replies may nest before they attach one level up.
    pub nesting_limit: u32,
    /// How long, in seconds, commenters may edit their own comments.
    pub edit_timeout: i64,
    /// Email notifications.
    pub notifications: Notifications,
    /// Telegram notifications.
    pub telegram: Telegram,
}

/// The blog's author.
#[derive(Debug)]
pub struct Author {
    /// Name.
    pub name: Option<String>,
    /// Email address.
    pub email: Option<String>,
    /// Website.
    pub url: Option<String>,
    /// Fingerprint of the details above.
    pub hash: String,
}

/// Email notifications of new comments.
#[derive(Debug)]
pub struct Notifications {
    /// Whether an email is sent for each new comment.
    pub new_comment: bool,
    /// The SMTP server to send through.
    pub smtp_server: SMTPServer,
    /// Who receives the emails.
    pub recipient: Recipient,
}

/// Connection details of an SMTP server.
#[derive(Debug)]
pub struct SMTPServer {
    /// Host name, without a protocol.
    pub host: String,
    /// User name.
    pub user_name: String,
    /// Password.
    pub password: String,
}

/// Walks the three settings of an SMTP server: host, user name, password.
#[derive(Debug)]
pub struct SMTPServerIterator<'a> {
    /// The server walked.
    pub server: &'a SMTPServer,
    /// How many settings have been handed out.
    pub index: usize,
}

/// Who receives the notification emails.
#[derive(Debug)]
pub struct Recipient {
    /// Email address.
    pub email: String,
    /// Name.
    pub name: String,
}

/// Telegram notifications of new comments.
#[derive(Debug)]
pub struct Telegram {
    /// Whether a message is pushed for each new comment.
    pub push_notifications: bool,
    /// Token of the bot.
    pub bot_id: String,
    /// The chat with the bot.
    pub chat_id: String,
}

/// The setting at position `i` of a server, if there is one.
pub open spec fn smtp_setting(s: SMTPServer, i: int) -> Option<Seq<char>> {
    if i == 0 {
        Some(s.host@)
    } else if i == 1 {
        Some(s.user_name@)
    } else if i == 2 {
        Some(s.password@)
    } else {
        None
    }
}

impl SMTPServer {
    /// Starts a walk over the settings.
    pub fn into_iter(&self) -> (r: SMTPServerIterator<'_>)
        ensures
            r.server == self,
            r.index == 0,
    {
        SMTPServerIterator { server: self, index: 0 }
    }
}

impl<'a> SMTPServerIterator<'a> {
    /// The next setting, if any is left.
    pub fn next(&mut self) -> (r: Option<&'a str>)
        ensures
            final(self).server == old(self).server,
            opt_str_view(r) == smtp_setting(*old(self).server, old(self).index as int),
            final(self).index == if old(self).index < 3 {
                old(self).index + 1
            } else {
                old(self).index as int
            },
    {
        let result: &'a str = if self.index == 0 {
            self.server.host.as_str()
        } else if self.index == 1 {
            self.server.user_name.as_str()
        } else if self.index == 2 {
            self.server.password.as_str()
        } else {
            return None;
        };
        self.index = self.index + 1;
        Some(result)
    }
}

/// Whether the setting at position `i` of a server is left empty.
pub open spec fn setting_blank(s: SMTPServer, i: int) -> bool {
    match smtp_setting(s, i) {
        Some(v) => blank(v),
        None => false,
    }
}

/// The view of an optional string slice.
pub open spec fn opt_str_view(o: Option<&str>) -> Option<Seq<char>> {
    match o {
        Some(s) => Some(s@),
        None => None,
    }
}

/// A setting that the configuration file leaves empty: nothing, or `~`.
pub open spec fn blank(s: Seq<char>) -> bool {
    s.len() == 0 || s == "~"@
}

/// Whether `s` starts with `http`.
pub open spec fn has_http_handle(s: Seq<char>) -> bool {
    s.len() >= 4 && s.subrange(0, 4) == "http"@
}

/// What the checks of a configuration find, in the order they are made.
pub open spec fn config_check(c: Config) -> Result<(), ErrorKind> {
    if !has_http_handle(c.host@) {
        Err(ErrorKind::NoHTTPHandle)
    } else if c.notifications.new_comment && (blank(c.notifications.smtp_server.host@) || blank(
        c.notifications.smtp_server.user_name@,
    ) || blank(c.notifications.smtp_server.password@)) {
        Err(ErrorKind::EmptySMTP)
    } else if c.notifications.new_comment && blank(c.notifications.recipient.email@) {
        Err(ErrorKind::EmptyRecipientEmail)
    } else {
        Ok(())
    }
}

/// Whether a setting is left empty.
fn is_blank(s: &str) -> (r: bool)
    ensures
        r == blank(s@),
{
    s.unicode_len() == 0 || str_eq(s, "~")
}

/// Whether `s` starts with `http`.
fn starts_with_http(s: &str) -> (r: bool)
    ensures
        r == has_http_handle(s@),
{
    if s.unicode_len() < 4 {
        return false;
    }
    str_eq(s.substring_char(0, 4), "http")
}

impl Config {
    /// Checks what the types of the configuration cannot: the host has a
    /// protocol, and enabled email notifications have their settings.
    pub fn parse(&self) -> (r: Result<(), ErrorKind>)
        ensures
            r == config_check(*self),
    {
        if !starts_with_http(self.host.as_str()) {
            return Err(ErrorKind::NoHTTPHandle);
        }
        if self.notifications.new_comment {
            let smtp = &self.notifications.smtp_server;
            let any_blank = is_blank(smtp.host.as_str()) || is_blank(smtp.user_name.as_str())
                || is_blank(smtp.password.as_str());
            if any_blank {
                return Err(ErrorKind::EmptySMTP);
            }
            if is_blank(self.notifications.recipient.email.as_str()) {
                return Err(ErrorKind::EmptyRecipientEmail);
            }
        }
        Ok(())
    }
}

impl Author {
    /// Sets the fingerprint from the author's details.
    pub fn gen_hash(&mut self)
        ensures
            final(self).name == old(self).name,
            final(self).email == old(self).email,
            final(self).url == old(self).url,
            final(self).hash@ == identity_hash(
                opt_view(old(self).name),
                opt_view(old(self).email),
                opt_view(old(self).url),
                None,
            ),
    {
        self.hash = gen_hash(&self.name, &self.email, &self.url, None);
    }
}

} // verus!
