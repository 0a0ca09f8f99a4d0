//! The sign-in form of the terminal client: what each key does to it, and
//! what it shows.

use vstd::prelude::*;
use vstd::string::StringExecFns;
use vstd::utf8::encode_utf8;

verus! {

/// `String::push` puts one character behind the text.
pub assume_specification[ String::push ](text: &mut String, ch: char)
    ensures
        final(text)@ == old(text)@.push(ch),
;

/// `String::pop` takes the last character off the text and returns it; an
/// empty text stays empty and `None` comes back.
pub assume_specification[ String::pop ](text: &mut String) -> (last: Option<char>)
    ensures
        old(text)@.len() == 0 ==> last.is_none() && final(text)@ == old(text)@,
        old(text)@.len() > 0 ==> last == Some(old(text)@.last()) && final(text)@ == old(
            text,
        )@.drop_last(),
;

/// A key as the form tells them apart.
#[derive(Clone, Copy, Debug, PartialEq, Eq)]
pub enum Key {
    /// A character to type.
    Char(char),
    Backspace,
    Enter,
    Esc,
    /// Any other key.
    Other,
}

/// What the client does after a key.
#[derive(Clone, Copy, Debug, PartialEq, Eq)]
pub enum Outcome {
    /// Show the form again and wait for the next key.
    Continue,
    /// Both fields are filled in: send them.
    Submit,
    /// The user gave up.
    Cancel,
}

/// The sign-in form: the username first, then the password.
#[derive(Clone, Debug, PartialEq, Eq)]
pub struct LoginForm {
    pub username: String,
    pub password: String,
    /// Whether keys still go to the username.
    pub collecting_username: bool,
    /// What the form complains of, if anything.
    pub error_message: Option<String>,
}

/// The form over mathematical text.
pub struct LoginFormView {
    pub username: Seq<char>,
    pub password: Seq<char>,
    pub collecting_username: bool,
    pub error_message: Option<Seq<char>>,
}

impl View for LoginForm {
    type V = LoginFormView;

    open spec fn view(&self) -> LoginFormView {
        LoginFormView {
            username: self.username@,
            password: self.password@,
            collecting_username: self.collecting_username,
            error_message: match self.error_message {
                Some(message) => Some(message@),
                None => None,
            },
        }
    }
}

/// `text` without its last character; an empty text stays empty.
pub open spec fn erased(text: Seq<char>) -> Seq<char> {
    if text.len() > 0 {
        text.drop_last()
    } else {
        text
    }
}

/// The form and the outcome after `key` was pressed on `form`.
///
/// A character goes behind the field in hand and clears the complaint.
/// Backspace takes the last character off that field. Enter on the
/// username moves on to the password, on the password submits; on an
/// empty field it does neither and the form complains instead. Esc
/// cancels. Other keys do nothing.
pub open spec fn pressed(form: LoginFormView, key: Key) -> (LoginFormView, Outcome) {
    match key {
        Key::Char(c) => if form.collecting_username {
            (
                LoginFormView { username: form.username.push(c), error_message: None, ..form },
                Outcome::Continue,
            )
        } else {
            (
                LoginFormView { password: form.password.push(c), error_message: None, ..form },
                Outcome::Continue,
            )
        },
        Key::Backspace => if form.collecting_username {
            (LoginFormView { username: erased(form.username), ..form }, Outcome::Continue)
        } else {
            (LoginFormView { password: erased(form.password), ..form }, Outcome::Continue)
        },
        Key::Enter => if form.collecting_username {
            if form.username.len() == 0 {
                (
                    LoginFormView {
                        error_message: Some("Username cannot be empty"@),
                        ..form
                    },
                    Outcome::Continue,
                )
            } else {
                (LoginFormView { collecting_username: false, ..form }, Outcome::Continue)
            }
        } else {
            if form.password.len() == 0 {
                (
                    LoginFormView {
                        error_message: Some("Password cannot be empty"@),
                        ..form
                    },
                    Outcome::Continue,
                )
            } else {
                (form, Outcome::Submit)
            }
        },
        Key::Esc => (form, Outcome::Cancel),
        Key::Other => (form, Outcome::Continue),
    }
}

/// What the input box shows: the username as typed, or one `*` for each
/// byte that the password takes in UTF-8.
pub open spec fn shown(form: LoginFormView) -> Seq<char> {
    if form.collecting_username {
        form.username
    } else {
        Seq::new(encode_utf8(form.password).len(), |i: int| '*')
    }
}

impl LoginForm {
    /// The empty form, waiting for the username.
    pub fn new() -> (form: Self)
        ensures
            form@ == (LoginFormView {
                username: Seq::empty(),
                password: Seq::empty(),
                collecting_username: true,
                error_message: None,
            }),
    {
        LoginForm {
            username: String::new(),
            password: String::new(),
            collecting_username: true,
            error_message: None,
        }
    }

    /// Takes one key.
    pub fn press(&mut self, key: Key) -> (outcome: Outcome)
        ensures
            (final(self)@, outcome) == pressed(old(self)@, key),
    {
        match key {
            Key::Char(c) => {
                if self.collecting_username {
                    self.username.push(c);
                } else {
                    self.password.push(c);
                }
                self.error_message = None;
                Outcome::Continue
            },
            Key::Backspace => {
                if self.collecting_username {
                    self.username.pop();
                } else {
                    self.password.pop();
                }
                Outcome::Continue
            },
            Key::Enter => {
                if self.collecting_username {
                    if self.username.as_str().is_empty() {
                        self.error_message = Some(String::from_str("Username cannot be empty"));
                    } else {
                        self.collecting_username = false;
                    }
                    Outcome::Continue
                } else {
                    if self.password.as_str().is_empty() {
                        self.error_message = Some(String::from_str("Password cannot be empty"));
                        Outcome::Continue
                    } else {
                        Outcome::Submit
                    }
                }
            },
            Key::Esc => Outcome::Cancel,
            Key::Other => Outcome::Continue,
        }
    }

    /// The title of the input box.
    pub fn prompt(&self) -> (title: &'static str)
        ensures
            title@ == if self.collecting_username {
                "Enter your username:"@
            } else {
                "Enter your password:"@
            },
    {
        if self.collecting_username {
            "Enter your username:"
        } else {
            "Enter your password:"
        }
    }

    /// The content of the input box.
    pub fn shown_input(&self) -> (content: String)
        ensures
            content@ == shown(self@),
    {
        if self.collecting_username {
            self.username.clone()
        } else {
            let n = self.password.as_str().as_bytes().len();
            let mut content = String::new();
            let mut i: usize = 0;
            while i < n
                invariant
                    0 <= i <= n,
                    content@ == Seq::new(i as nat, |k: int| '*'),
                decreases n - i,
            {
                proof {
                    reveal_strlit("*");
                }
                content.append("*");
                i = i + 1;
                assert(content@ =~= Seq::new(i as nat, |k: int| '*'));
            }
            content
        }
    }
}

} // verus!
