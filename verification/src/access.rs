//! Who may use the bot.

use vstd::prelude::*;

verus! {

/// Whether the chat `chat` may use the bot: only the one chat that was
/// allowed, and none where no chat was.
pub fn is_allowed_user(chat: i64, allowed: Option<i64>) -> (r: bool)
    ensures
        r == (allowed == Some(chat)),
{
    match allowed {
        Some(id) => id == chat,
        None => false,
    }
}

} // verus!
