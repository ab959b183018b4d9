use vstd::prelude::*;
use vstd::string::StringExecFns;

verus! {

/// The credentials and destination of the notification bot.
pub struct TelegramBot {
    pub token: String,
    pub chat_id: String,
}

/// The text of a notification: market, timeframe, a colon, the signal, and
/// the word "signal".
pub open spec fn signal_text(market: Seq<char>, timeframe: Seq<char>, signal: Seq<char>) -> Seq<
    char,
> {
    market + " "@ + timeframe + ": "@ + signal + " signal"@
}

/// The address that a bot with this token sends its messages to.
pub open spec fn send_address(token: Seq<char>) -> Seq<char> {
    "https://api.telegram.org/bot"@ + token + "/sendMessage"@
}

impl TelegramBot {
    /// A bot with the given token that writes to the given chat.
    pub fn new(token: String, chat_id: String) -> (bot: Self)
        ensures
            bot.token == token,
            bot.chat_id == chat_id,
    {
        Self { token, chat_id }
    }

    /// The text that announces a signal.
    pub fn signal_message(market: &str, timeframe: &str, signal: &str) -> (text: String)
        ensures
            text@ == signal_text(market@, timeframe@, signal@),
    {
        let mut text = String::from_str(market);
        text.append(" ");
        text.append(timeframe);
        text.append(": ");
        text.append(signal);
        text.append(" signal");
        text
    }

    /// The address that this bot's messages are sent to.
    pub fn send_url(&self) -> (url: String)
        ensures
            url@ == send_address(self.token@),
    {
        let mut url = String::from_str("https://api.telegram.org/bot");
        url.append(self.token.as_str());
        url.append("/sendMessage");
        url
    }
}

} // verus!
