//! Line editing: what a key press does to the text that is shown.

use vstd::prelude::*;

verus! {

/// The logical key of a keyboard event. The named keys are told apart;
/// every other key, the printable ones among them, is `Other`.
#[derive(Clone, Copy, Debug, PartialEq, Eq)]
pub enum Key {
    Alphanumeric,
    Alt,
    AltGraph,
    Control,
    Enter,
    Tab,
    ArrowDown,
    ArrowLeft,
    ArrowRight,
    ArrowUp,
    Backspace,
    Clear,
    Copy,
    Cut,
    Delete,
    Insert,
    Paste,
    Redo,
    Undo,
    Escape,
    Execute,
    Other,
}

/// What line editing reads of a keyboard event: whether the key went down,
/// which key it was, and the text the press produced, if any.
#[derive(Clone, Debug, PartialEq, Eq)]
pub struct KeyEvent {
    pub pressed: bool,
    pub logical_key: Key,
    pub text: Option<String>,
}

/// The keys that line editing has an action for. Pressing any other named
/// key is not provided for.
pub open spec fn is_assigned(key: Key) -> bool {
    key is Enter || key is Backspace || key is Other
}

/// The text after the event: Backspace deletes the last character, a key
/// without a name appends the text it produced, and nothing else changes
/// the text.
pub open spec fn edited(buffer: Seq<char>, event: KeyEvent) -> Seq<char> {
    if !event.pressed {
        buffer
    } else {
        match event.logical_key {
            Key::Backspace => if buffer.len() > 0 {
                buffer.drop_last()
            } else {
                buffer
            },
            Key::Other => match event.text {
                Some(text) => buffer + text@,
                None => buffer,
            },
            _ => buffer,
        }
    }
}

/// Whether the event calls for a redraw: a press of Enter or Backspace does,
/// and so does a press of a key without a name that produced text.
pub open spec fn wants_redraw(event: KeyEvent) -> bool {
    event.pressed && match event.logical_key {
        Key::Enter => true,
        Key::Backspace => true,
        Key::Other => event.text is Some,
        _ => false,
    }
}

/// `String::pop`: removes the last character and returns it, or returns
/// `None` and leaves an empty string as it is.
pub assume_specification[ String::pop ](text: &mut String) -> (removed: Option<char>)
    ensures
        old(text)@.len() == 0 ==> removed is None && final(text)@ == old(text)@,
        old(text)@.len() > 0 ==> removed == Some(old(text)@.last()) && final(text)@ == old(
            text,
        )@.drop_last(),
;

/// `String::push_str`: appends the slice to the end of the string.
pub assume_specification[ String::push_str ](text: &mut String, tail: &str)
    ensures
        final(text)@ == old(text)@ + tail@,
;

/// `String::as_mut_str`: the string's own characters, to be changed in place.
pub assume_specification[ String::as_mut_str ](text: &mut String) -> (slice: &mut str)
    ensures
        slice@ == old(text)@,
        final(text)@ == final(slice)@,
;

/// Whether line editing has an action for the key.
pub fn has_action(key: Key) -> (assigned: bool)
    ensures
        assigned == is_assigned(key),
{
    match key {
        Key::Enter => true,
        Key::Backspace => true,
        Key::Other => true,
        _ => false,
    }
}

/// Hands the line over when Enter is pressed. Nothing takes the line yet:
/// the text stays as it is.
pub fn send_input(_input: &mut str)
    ensures
        final(_input)@ == old(_input)@,
{
}

/// Applies a keyboard event to the text and says whether the text has to
/// be drawn again.
pub fn handle_key_press(input_buffer: &mut String, event: KeyEvent) -> (redraw: bool)
    requires
        event.pressed ==> is_assigned(event.logical_key),
    ensures
        final(input_buffer)@ == edited(old(input_buffer)@, event),
        redraw == wants_redraw(event),
{
    if event.pressed {
        return match event.logical_key {
            Key::Enter => {
                send_input(input_buffer.as_mut_str());
                true
            },
            Key::Backspace => {
                input_buffer.pop();
                true
            },
            _ => {
                if let Some(text) = event.text {
                    input_buffer.push_str(text.as_str());
                    true
                } else {
                    false
                }
            },
        };
    }
    false
}

} // verus!
