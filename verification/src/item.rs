//! The harvested feed entry and the message that announces it.

use vstd::prelude::*;
use vstd::string::StringExecFns;
use crate::decimal::{decimal_digits, push_decimal};

verus! {

/// One entry harvested from the feed.
#[derive(Debug, PartialEq, Eq)]
pub struct Item {
    /// The feed's own post number: the key by which entries are ordered and told apart.
    pub sequence: u32,
    /// The post body, without its leading number token.
    pub text: String,
    /// When the post was published, in milliseconds since the epoch.
    pub published_at: i64,
    /// The same instant as the feed gave it, in seconds since the epoch.
    pub timestamp: i64,
    /// The absolute address of the post.
    pub permalink: String,
    /// The last path segment of `permalink`.
    pub source_id: String,
}

/// What an `Item` holds, as mathematical values.
pub struct ItemView {
    pub sequence: nat,
    pub text: Seq<char>,
    pub published_at: int,
    pub timestamp: int,
    pub permalink: Seq<char>,
    pub source_id: Seq<char>,
}

impl View for Item {
    type V = ItemView;

    open spec fn view(&self) -> ItemView {
        ItemView {
            sequence: self.sequence as nat,
            text: self.text@,
            published_at: self.published_at as int,
            timestamp: self.timestamp as int,
            permalink: self.permalink@,
            source_id: self.source_id@,
        }
    }
}

/// The announcement of an entry: its number in bold after a `#`, a space, the
/// body, and on a second line the permalink between angle brackets.
pub open spec fn announcement(item: ItemView) -> Seq<char> {
    seq!['*', '*', '#'] + decimal_digits(item.sequence) + seq!['*', '*', ' '] + item.text
        + seq!['\n', '<'] + item.permalink + seq!['>']
}

impl Item {
    /// A copy of the entry.
    pub fn duplicate(&self) -> (copy: Item)
        ensures
            copy@ == self@,
    {
        Item {
            sequence: self.sequence,
            text: self.text.clone(),
            published_at: self.published_at,
            timestamp: self.timestamp,
            permalink: self.permalink.clone(),
            source_id: self.source_id.clone(),
        }
    }

    /// The message that announces this entry to a destination.
    pub fn render(&self) -> (message: String)
        ensures
            message@ == announcement(self@),
    {
        proof {
            reveal_strlit("**#");
            reveal_strlit("** ");
            reveal_strlit("\n<");
            reveal_strlit(">");
        }
        let mut message = String::new();
        message.append("**#");
        push_decimal(&mut message, self.sequence);
        message.append("** ");
        message.append(self.text.as_str());
        message.append("\n<");
        message.append(self.permalink.as_str());
        message.append(">");
        message
    }
}

} // verus!
