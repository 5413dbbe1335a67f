# itzon

The live streaming service itzon, for a desktop program that shows several services side by side:
its catalog of live channels, playback, chat, emotes, and signing in.

The library in `src/` decides; it is verified with Verus. The program around it in `app/` talks to
the network, the credential store and the desktop, and does what the library says.

| module | what it holds |
| --- | --- |
| `text`, `letters`, `text_map`, `json` | text, letters and numbers, maps keyed by text, JSON values |
| `urls` | which addresses are trusted, and how they are written |
| `irc`, `members`, `recent`, `messages` | lines of IRC, and the messages, badges and replies made from them |
| `emotes` | the emotes of each channel, and the parts of a message |
| `sending`, `session`, `provider` | what is sent, one connection to chat, and which connections there are |
| `account`, `auth`, `cookies`, `signin`, `follows` | the account, the session of the website, and the channels it follows |
| `oauth` | signing in with an authorization code and a proof key |
| `media`, `catalog` | channels, playback, heartbeats, and the rows of the catalog |
| `error` | what can go wrong, and how it is told |

Each function says in its contract what it returns and changes. Where it relies on another crate
(`url`, `urlencoding`, `serde_json`, `base64`, `sha2`, `rand`, `uuid`, `chrono`), the one function
that makes the call says in its comment what is taken for granted.
