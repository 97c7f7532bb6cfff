//! What the input box shows.
use vstd::prelude::*;

verus! {

/// The input box's class, the class of its wrapper and its placeholder: the
/// new-chat screen has its own classes and greeting.
pub fn input_box_texts(for_new_chat: bool) -> (res: (&'static str, &'static str, &'static str))
    ensures
        for_new_chat ==> res.0@ == "textarea-box-new-chat"@ && res.1@
            == "textarea-wrapper-new-chat"@ && res.2@ == "How can I help you?"@,
        !for_new_chat ==> res.0@ == "textarea-box"@ && res.1@ == "textarea-wrapper"@ && res.2@
            == "Type your message..."@,
{
    if for_new_chat {
        ("textarea-box-new-chat", "textarea-wrapper-new-chat", "How can I help you?")
    } else {
        ("textarea-box", "textarea-wrapper", "Type your message...")
    }
}

} // verus!
