//! The HTML bodies the application serves: the admin dashboard greeting and
//! the login form, with the verified error fragment it may carry.

use vstd::prelude::*;

use crate::login::{HmacSecret, QueryParam};
use vstd::string::StringExecFns;

verus! {

/// What escaping a character for HTML gives: the five entity escapes of
/// the minimal set, every other character unchanged.
pub open spec fn html_escape_char(c: char) -> Seq<char> {
    if c == '"' {
        "&quot;"@
    } else if c == '&' {
        "&amp;"@
    } else if c == '\'' {
        "&#x27;"@
    } else if c == '<' {
        "&lt;"@
    } else if c == '>' {
        "&gt;"@
    } else {
        seq![c]
    }
}

/// A string escaped for HTML, character by character.
pub open spec fn html_escaped(s: Seq<char>) -> Seq<char>
    decreases s.len(),
{
    if s.len() == 0 {
        Seq::empty()
    } else {
        html_escape_char(s[0]) + html_escaped(s.drop_first())
    }
}

/// Relies on htmlescape::encode_minimal: escapes `"`, `&`, `'`, `<` and
/// `>` to their entities and keeps every other character.
#[verifier::external_body]
fn html_escape(s: &str) -> (r: String)
    ensures
        r@ == html_escaped(s@),
{
    htmlescape::encode_minimal(s)
}

pub open spec fn dashboard_head() -> Seq<char> {
    r#"<!DOCTYPE html>
<html lang="en">
<head>
<meta http-equiv="content-type" content="text/html; charset=utf-8">
<title>Admin dashboard</title>
</head>
<body>
<p>Welcome "#@
}

pub open spec fn dashboard_tail() -> Seq<char> {
    r#"!</p>
</body>
</html>"#@
}

/// The admin dashboard body greeting the signed-in user.
pub fn dashboard_html(username: &str) -> (r: String)
    ensures
        r@ == dashboard_head() + username@ + dashboard_tail(),
{
    let mut page = r#"<!DOCTYPE html>
<html lang="en">
<head>
<meta http-equiv="content-type" content="text/html; charset=utf-8">
<title>Admin dashboard</title>
</head>
<body>
<p>Welcome "#.to_owned();
    page.append(username);
    page.append(
        r#"!</p>
</body>
</html>"#,
    );
    page
}

pub open spec fn login_form_head() -> Seq<char> {
    r#"
<!DOCTYPE html>
<html lang="en">

<head>
    <meta http-equiv="content-type" content="text/html; charset=utf-8">
    <title>Login</title>
</head>

<body style="display: flex; align-items: center; justify-content: center; flex-direction: column; min-height:100vh">
"#@
}

pub open spec fn login_form_tail() -> Seq<char> {
    r#"
<form action="/login" method="post" style="padding: 10px; border: 1px solid blueviolet;">
        <label>Username
            <input type="text" placeholder="Enter Username" name="username">
        </label>
        <label>Password
            <input type="password" placeholder="Enter Password" name="password">
        </label>
        <button type="submit">Login</button>
    </form>
</body>

</html>
            "#@
}

/// The login page around a (possibly empty) error fragment.
pub open spec fn login_form_page(err_html: Seq<char>) -> Seq<char> {
    login_form_head() + err_html + login_form_tail()
}

/// The fragment shown for a verified error message.
pub open spec fn error_fragment_of(msg: Seq<char>) -> Seq<char> {
    "<p><i>"@ + html_escaped(msg) + "</i></p>"@
}

/// Render the verified error message as an emphasized, HTML-escaped
/// fragment.
pub fn error_fragment(msg: &str) -> (r: String)
    ensures
        r@ == error_fragment_of(msg@),
{
    let mut s = "<p><i>".to_owned();
    let escaped = html_escape(msg);
    s.append(escaped.as_str());
    s.append("</i></p>");
    s
}

/// The login form body for a request: a query whose tag verifies shows its
/// error message, escaped; a missing query or a failed verification shows
/// none.
pub fn login_form(secret: &HmacSecret, query: Option<QueryParam>) -> (r: String)
    ensures
        match query {
            Option::Some(q) => {
                if crate::login::is_hex_string(q@.tag) && crate::login::hex_decoded(q@.tag)
                    == crate::login::expected_tag(secret.0@, q@.error) {
                    r@ == login_form_page(error_fragment_of(q@.error))
                } else {
                    r@ == login_form_page(Seq::<char>::empty())
                }
            },
            Option::None => r@ == login_form_page(Seq::<char>::empty()),
        },
    {
    let err_html: String = match query {
        Option::Some(q) => {
            match q.verify(secret) {
                Result::Ok(error_msg) => error_fragment(error_msg.as_str()),
                Result::Err(_) => String::new(),
            }
        },
        Option::None => String::new(),
    };
    let mut page = r#"
<!DOCTYPE html>
<html lang="en">

<head>
    <meta http-equiv="content-type" content="text/html; charset=utf-8">
    <title>Login</title>
</head>

<body style="display: flex; align-items: center; justify-content: center; flex-direction: column; min-height:100vh">
"#.to_owned();
    page.append(err_html.as_str());
    page.append(
        r#"
<form action="/login" method="post" style="padding: 10px; border: 1px solid blueviolet;">
        <label>Username
            <input type="text" placeholder="Enter Username" name="username">
        </label>
        <label>Password
            <input type="password" placeholder="Enter Password" name="password">
        </label>
        <button type="submit">Login</button>
    </form>
</body>

</html>
            "#,
    );
    page
}

} // verus!
