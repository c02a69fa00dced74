use vstd::prelude::*;

use crate::decimal::{decimal_text, format_decimal};

verus! {

/// The messages the device sends to the operator's chat.
#[derive(PartialEq, Eq, Structural, Debug, Clone, Copy)]
pub enum Notice {
    /// The home lab's broker could not be reached or did not take the ping.
    LabDown,
    /// The broker took a ping again after an outage.
    LabUp,
}

/// The text of each notice.
pub open spec fn notice_message(notice: Notice) -> Seq<char> {
    match notice {
        Notice::LabDown => "Home lab isn't responding"@,
        Notice::LabUp => "Home lab is responding again"@,
    }
}

/// The text of `notice`.
pub fn notice_text(notice: Notice) -> (r: &'static str)
    ensures
        r@ == notice_message(notice),
{
    match notice {
        Notice::LabDown => "Home lab isn't responding",
        Notice::LabUp => "Home lab is responding again",
    }
}

/// The form-encoded body of a `sendMessage` call.
pub open spec fn message_body(chat_id: Seq<char>, text: Seq<char>) -> Seq<char> {
    "chat_id="@ + chat_id + "&text="@ + text
}

/// The number of bytes of the UTF-8 encoding of `s`.
pub open spec fn utf8_len(s: Seq<char>) -> nat {
    vstd::utf8::encode_utf8(s).len()
}

/// The HTTP/1.1 request that posts `text` to the chat `chat_id` through the
/// bot API with the token `token`. Its `Content-Length` is the number of
/// bytes of the body.
pub open spec fn telegram_request_text(token: Seq<char>, chat_id: Seq<char>, text: Seq<char>) -> Seq<char> {
    let body = message_body(chat_id, text);
    "POST /bot"@ + token
        + "/sendMessage HTTP/1.1\r\nHost: api.telegram.org\r\nContent-Type: application/x-www-form-urlencoded\r\nContent-Length: "@
        + decimal_text(utf8_len(body)) + "\r\nConnection: close\r\n\r\n"@ + body
}

/// Builds the request that sends `text` to the chat `chat_id` through the
/// bot whose API token is `token`.
pub fn telegram_request(token: &str, chat_id: &str, text: &str) -> (r: String)
    ensures
        r@ == telegram_request_text(token@, chat_id@, text@),
{
    let mut body = String::from_str("chat_id=");
    body.append(chat_id);
    body.append("&text=");
    body.append(text);
    assert(body@ == message_body(chat_id@, text@));
    let body_len = body.as_str().as_bytes().len();
    let mut request = String::from_str("POST /bot");
    request.append(token);
    request.append(
        "/sendMessage HTTP/1.1\r\nHost: api.telegram.org\r\nContent-Type: application/x-www-form-urlencoded\r\nContent-Length: ",
    );
    let length = format_decimal(body_len);
    request.append(length.as_str());
    request.append("\r\nConnection: close\r\n\r\n");
    request.append(body.as_str());
    request
}

/// The request line carries the whole bot token: every request starts with
/// `POST /bot`, then the token unchanged, then `/sendMessage HTTP/1.1` and
/// the line end.
pub proof fn lemma_request_line(token: Seq<char>, chat_id: Seq<char>, text: Seq<char>)
    ensures
        ({
            let line = "POST /bot"@ + token + "/sendMessage HTTP/1.1\r\n"@;
            telegram_request_text(token, chat_id, text).take(line.len() as int) == line
        }),
{
    reveal_strlit("POST /bot");
    reveal_strlit("/sendMessage HTTP/1.1\r\n");
    reveal_strlit(
        "/sendMessage HTTP/1.1\r\nHost: api.telegram.org\r\nContent-Type: application/x-www-form-urlencoded\r\nContent-Length: ",
    );
    let head = "POST /bot"@ + token;
    let tail = "/sendMessage HTTP/1.1\r\n"@;
    let headers =
        "/sendMessage HTTP/1.1\r\nHost: api.telegram.org\r\nContent-Type: application/x-www-form-urlencoded\r\nContent-Length: "@;
    assert(headers.take(tail.len() as int) =~= tail);
    let body = message_body(chat_id, text);
    let rest = decimal_text(utf8_len(body)) + "\r\nConnection: close\r\n\r\n"@ + body;
    let request = telegram_request_text(token, chat_id, text);
    assert(request =~= head + headers + rest);
    assert(request.take((head + tail).len() as int) =~= head + tail);
}

/// Every request ends with the form body that carries the chat id and the
/// text, unchanged, after the blank line that ends the headers.
pub proof fn lemma_request_ends_with_body(token: Seq<char>, chat_id: Seq<char>, text: Seq<char>)
    ensures
        ({
            let end = "\r\n\r\n"@ + "chat_id="@ + chat_id + "&text="@ + text;
            let request = telegram_request_text(token, chat_id, text);
            request.len() >= end.len() && request.skip(request.len() - end.len()) == end
        }),
{
    reveal_strlit("\r\n\r\n");
    reveal_strlit("\r\nConnection: close\r\n\r\n");
    let closing = "\r\nConnection: close\r\n\r\n"@;
    let blank = "\r\n\r\n"@;
    assert(closing.skip(closing.len() - 4) =~= blank);
    let body = "chat_id="@ + chat_id + "&text="@ + text;
    let end = blank + body;
    let request = telegram_request_text(token, chat_id, text);
    let front = "POST /bot"@ + token
        + "/sendMessage HTTP/1.1\r\nHost: api.telegram.org\r\nContent-Type: application/x-www-form-urlencoded\r\nContent-Length: "@
        + decimal_text(utf8_len(body));
    assert(request =~= front + closing + body);
    assert(request.skip(request.len() - end.len()) =~= end);
}

/// The `Content-Length` header declares the number of UTF-8 bytes of the
/// form body, in base ten.
pub proof fn lemma_request_content_length(token: Seq<char>, chat_id: Seq<char>, text: Seq<char>)
    ensures
        ({
            let header = "Content-Length: "@ + decimal_text(
                utf8_len("chat_id="@ + chat_id + "&text="@ + text),
            ) + "\r\n"@;
            let request = telegram_request_text(token, chat_id, text);
            exists|i: int|
                0 <= i && i + header.len() <= request.len() && #[trigger] request.subrange(
                    i,
                    i + header.len(),
                ) == header
        }),
{
    reveal_strlit("Content-Length: ");
    reveal_strlit("\r\n");
    reveal_strlit("\r\nConnection: close\r\n\r\n");
    reveal_strlit(
        "/sendMessage HTTP/1.1\r\nHost: api.telegram.org\r\nContent-Type: application/x-www-form-urlencoded\r\nContent-Length: ",
    );
    let headers =
        "/sendMessage HTTP/1.1\r\nHost: api.telegram.org\r\nContent-Type: application/x-www-form-urlencoded\r\nContent-Length: "@;
    let label = "Content-Length: "@;
    assert(headers.skip(headers.len() - label.len()) =~= label);
    let closing = "\r\nConnection: close\r\n\r\n"@;
    assert(closing.take(2) =~= "\r\n"@);
    let body = "chat_id="@ + chat_id + "&text="@ + text;
    let digits = decimal_text(utf8_len(body));
    let header = label + digits + "\r\n"@;
    let request = telegram_request_text(token, chat_id, text);
    let before = "POST /bot"@ + token + headers.take(headers.len() - label.len());
    assert(request =~= before + header + closing.skip(2) + body);
    let i = before.len() as int;
    assert(request.subrange(i, i + header.len()) =~= header);
}

/// The notices carry the texts the operator expects: an outage is reported
/// as "Home lab isn't responding", the end of one as "Home lab is responding
/// again", and the two never read the same.
pub proof fn lemma_notice_texts()
    ensures
        notice_message(Notice::LabDown) == "Home lab isn't responding"@,
        notice_message(Notice::LabUp) == "Home lab is responding again"@,
        notice_message(Notice::LabDown) != notice_message(Notice::LabUp),
{
    reveal_strlit("Home lab isn't responding");
    reveal_strlit("Home lab is responding again");
    assert(notice_message(Notice::LabDown).len() != notice_message(Notice::LabUp).len());
}

} // verus!
