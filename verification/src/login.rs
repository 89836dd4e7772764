//! The client-side bridge between the render loop and the asynchronous I/O
//! domain: the typed intents sent across, the routing each intent gets, and
//! the login flow that polls the session broker until a credential arrives.

use vstd::prelude::*;
use crate::color::{Character, Color};

verus! {

/// An intent the render loop hands to the I/O domain over the channel.
#[derive(Clone, Debug)]
pub enum BevyMessage {
    Ping,
    CreateCharacter(String, Character),
    FetchToken(String),
    PatchCharacterColor { token: String, id: i32, color: [u8; 4] },
}

/// What the I/O domain must do for one intent: answer the ping back over
/// the channel, post the new character, poll the session once, or patch the
/// stored color.
#[derive(Clone, Debug)]
pub enum MessagePlan {
    ReplyPing,
    PostCharacter { credential: String, character: Character },
    PollSession { session: String },
    PatchColor { credential: String, id: i32, color: [u8; 4] },
}

/// Routes one intent: each kind of message gets exactly its own action, with
/// every field handed through unchanged.
pub fn plan_message(m: BevyMessage) -> (r: MessagePlan)
    ensures
        m is Ping <==> r is ReplyPing,
        m matches BevyMessage::FetchToken(session) ==> (r matches MessagePlan::PollSession {
            session: s,
        } && s == session),
        m matches BevyMessage::CreateCharacter(credential, character) ==> (r
            matches MessagePlan::PostCharacter { credential: c, character: ch } && c == credential
            && ch.name@ == character.name@),
        m matches BevyMessage::PatchCharacterColor { token, id, color } ==> (r
            matches MessagePlan::PatchColor { credential: c, id: i, color: cl } && c == token && i
            == id && cl == color),
{
    match m {
        BevyMessage::Ping => MessagePlan::ReplyPing,
        BevyMessage::CreateCharacter(credential, character) => MessagePlan::PostCharacter {
            credential,
            character,
        },
        BevyMessage::FetchToken(session) => MessagePlan::PollSession { session },
        BevyMessage::PatchCharacterColor { token, id, color } => MessagePlan::PatchColor {
            credential: token,
            id,
            color,
        },
    }
}

/// Which in-game window is open.
#[derive(Clone, Copy, Debug, PartialEq, Eq, Structural)]
pub enum GameMenus {
    Closed,
    ChangeColor,
    CreateCharacter,
    ChooseCharacter,
    Failed,
}

impl Default for GameMenus {
    fn default() -> (r: Self)
        ensures
            r == GameMenus::Closed,
    {
        GameMenus::Closed
    }
}

/// The character whose color is being changed, while that window is open.
pub struct CurrentCharacter(pub Option<Character>);

/// The decision behind picking a color for the selected character: with a
/// stored character selected, the patch intent is produced with the chosen
/// color and the selection is cleared; with no stored character selected,
/// nothing is sent.
pub fn choose_color(
    current: &mut CurrentCharacter,
    credential: String,
    color: [u8; 4],
) -> (r: Option<BevyMessage>)
    ensures
        (old(current).0 is Some && old(current).0->Some_0.id is Some) ==> r == Some(
            BevyMessage::PatchCharacterColor {
                token: credential,
                id: old(current).0->Some_0.id->Some_0,
                color,
            },
        ) && final(current).0 is None,
        !(old(current).0 is Some && old(current).0->Some_0.id is Some)
            ==> r is None && final(current).0 == old(current).0,
{
    let selected = match &current.0 {
        Some(c) => c.id,
        None => None,
    };
    match selected {
        Some(id) => {
            current.0 = None;
            Some(BevyMessage::PatchCharacterColor { token: credential, id, color })
        },
        None => None,
    }
}

/// The character a filled-in creation window submits: the chosen name, color
/// and portrait under the signed-in owner, not yet stored, and with the
/// alpha channel forced fully opaque.
pub fn build_character(
    name: String,
    color: [u8; 4],
    owner: String,
    portrait: Option<String>,
) -> (r: Character)
    ensures
        r.id is None,
        r.name == name,
        r.color == (Color { red: color[0], green: color[1], blue: color[2], alpha: 255 }),
        r.owner == owner,
        r.portrait == portrait,
{
    Character {
        id: None,
        name,
        color: Color { red: color[0], green: color[1], blue: color[2], alpha: 255 },
        owner,
        portrait,
    }
}

/// Where the login stands: waiting on the menu, polling the broker with a
/// session in hand, or done with a credential.
#[derive(Clone, Copy, Debug, PartialEq, Eq, Structural)]
pub enum LoginState {
    Main,
    LoggingIn,
    LoggedIn,
}

/// The login flow a client walks: it asks the broker for a session, sends
/// the user to the out-of-band page, and polls until the credential lands.
pub struct LoginFlow {
    pub state: LoginState,
    pub session: String,
    pub credential: Option<String>,
}

impl LoginFlow {
    /// A flow still on the menu: no session, no credential.
    pub fn new() -> (f: LoginFlow)
        ensures
            f.state == LoginState::Main,
            f.session@ == Seq::<char>::empty(),
            f.credential is None,
    {
        proof {
            reveal_strlit("");
        }
        LoginFlow { state: LoginState::Main, session: String::from_str(""), credential: None }
    }

    /// The user pressed login and the broker issued a session: hold the
    /// session id and start polling.
    pub fn start_login(&mut self, session: String)
        ensures
            final(self).state == LoginState::LoggingIn,
            final(self).session == session,
            final(self).credential == old(self).credential,
    {
        self.session = session;
        self.state = LoginState::LoggingIn;
    }

    /// One poll of the broker came back: a success carries the credential in
    /// its body, exactly as stored, and ends the flow; any other status —
    /// the pending signal included — changes nothing, and the next frame
    /// polls again.
    pub fn poll_response(&mut self, status: u16, body: String)
        ensures
            status == 200 ==> final(self).state == LoginState::LoggedIn && final(self).credential
                == Some(body) && final(self).session == old(self).session,
            status != 200 ==> *final(self) == *old(self),
    {
        if status == 200 {
            self.credential = Some(body);
            self.state = LoginState::LoggedIn;
        }
    }
}

} // verus!
