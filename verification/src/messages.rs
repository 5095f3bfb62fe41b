//! The messages the status bar shows after a key.

use vstd::prelude::*;

use crate::text::push_chars;

verus! {

/// The message `added, hidden by the filter`.
pub open spec fn msg_added_hidden() -> Seq<char> {
    seq!['a', 'd', 'd', 'e', 'd', ',', ' ', 'h', 'i', 'd', 'd', 'e', 'n', ' ', 'b', 'y', ' ', 't', 'h', 'e', ' ', 'f', 'i', 'l', 't', 'e', 'r']
}

/// The message `added, hidden by the filter`.
pub fn added_hidden_message() -> (r: String)
    ensures
        r@ == msg_added_hidden(),
{
    let mut r = String::new();
    let cs = ['a', 'd', 'd', 'e', 'd', ',', ' ', 'h', 'i', 'd', 'd', 'e', 'n', ' ', 'b', 'y', ' ', 't', 'h', 'e', ' ', 'f', 'i', 'l', 't', 'e', 'r'];
    push_chars(&mut r, &cs);
    assert(r@ =~= msg_added_hidden());
    r
}

/// The message `edited, hidden by the filter`.
pub open spec fn msg_edited_hidden() -> Seq<char> {
    seq!['e', 'd', 'i', 't', 'e', 'd', ',', ' ', 'h', 'i', 'd', 'd', 'e', 'n', ' ', 'b', 'y', ' ', 't', 'h', 'e', ' ', 'f', 'i', 'l', 't', 'e', 'r']
}

/// The message `edited, hidden by the filter`.
pub fn edited_hidden_message() -> (r: String)
    ensures
        r@ == msg_edited_hidden(),
{
    let mut r = String::new();
    let cs = ['e', 'd', 'i', 't', 'e', 'd', ',', ' ', 'h', 'i', 'd', 'd', 'e', 'n', ' ', 'b', 'y', ' ', 't', 'h', 'e', ' ', 'f', 'i', 'l', 't', 'e', 'r'];
    push_chars(&mut r, &cs);
    assert(r@ =~= msg_edited_hidden());
    r
}

/// The message `undone`.
pub open spec fn msg_undone() -> Seq<char> {
    seq!['u', 'n', 'd', 'o', 'n', 'e']
}

/// The message `undone`.
pub fn undone_message() -> (r: String)
    ensures
        r@ == msg_undone(),
{
    let mut r = String::new();
    let cs = ['u', 'n', 'd', 'o', 'n', 'e'];
    push_chars(&mut r, &cs);
    assert(r@ =~= msg_undone());
    r
}

/// The message `redone`.
pub open spec fn msg_redone() -> Seq<char> {
    seq!['r', 'e', 'd', 'o', 'n', 'e']
}

/// The message `redone`.
pub fn redone_message() -> (r: String)
    ensures
        r@ == msg_redone(),
{
    let mut r = String::new();
    let cs = ['r', 'e', 'd', 'o', 'n', 'e'];
    push_chars(&mut r, &cs);
    assert(r@ =~= msg_redone());
    r
}

/// The message `nothing to undo`.
pub open spec fn msg_nothing_to_undo() -> Seq<char> {
    seq!['n', 'o', 't', 'h', 'i', 'n', 'g', ' ', 't', 'o', ' ', 'u', 'n', 'd', 'o']
}

/// The message `nothing to undo`.
pub fn nothing_to_undo_message() -> (r: String)
    ensures
        r@ == msg_nothing_to_undo(),
{
    let mut r = String::new();
    let cs = ['n', 'o', 't', 'h', 'i', 'n', 'g', ' ', 't', 'o', ' ', 'u', 'n', 'd', 'o'];
    push_chars(&mut r, &cs);
    assert(r@ =~= msg_nothing_to_undo());
    r
}

/// The message `nothing to redo`.
pub open spec fn msg_nothing_to_redo() -> Seq<char> {
    seq!['n', 'o', 't', 'h', 'i', 'n', 'g', ' ', 't', 'o', ' ', 'r', 'e', 'd', 'o']
}

/// The message `nothing to redo`.
pub fn nothing_to_redo_message() -> (r: String)
    ensures
        r@ == msg_nothing_to_redo(),
{
    let mut r = String::new();
    let cs = ['n', 'o', 't', 'h', 'i', 'n', 'g', ' ', 't', 'o', ' ', 'r', 'e', 'd', 'o'];
    push_chars(&mut r, &cs);
    assert(r@ =~= msg_nothing_to_redo());
    r
}

/// The message `reloaded`.
pub open spec fn msg_reloaded() -> Seq<char> {
    seq!['r', 'e', 'l', 'o', 'a', 'd', 'e', 'd']
}

/// The message `reloaded`.
pub fn reloaded_message() -> (r: String)
    ensures
        r@ == msg_reloaded(),
{
    let mut r = String::new();
    let cs = ['r', 'e', 'l', 'o', 'a', 'd', 'e', 'd'];
    push_chars(&mut r, &cs);
    assert(r@ =~= msg_reloaded());
    r
}

/// The message `reloaded, edit cancelled`.
pub open spec fn msg_reloaded_edit_cancelled() -> Seq<char> {
    seq!['r', 'e', 'l', 'o', 'a', 'd', 'e', 'd', ',', ' ', 'e', 'd', 'i', 't', ' ', 'c', 'a', 'n', 'c', 'e', 'l', 'l', 'e', 'd']
}

/// The message `reloaded, edit cancelled`.
pub fn reloaded_edit_cancelled_message() -> (r: String)
    ensures
        r@ == msg_reloaded_edit_cancelled(),
{
    let mut r = String::new();
    let cs = ['r', 'e', 'l', 'o', 'a', 'd', 'e', 'd', ',', ' ', 'e', 'd', 'i', 't', ' ', 'c', 'a', 'n', 'c', 'e', 'l', 'l', 'e', 'd'];
    push_chars(&mut r, &cs);
    assert(r@ =~= msg_reloaded_edit_cancelled());
    r
}
/// The message of an empty listing that no term filters.
pub open spec fn msg_nothing_to_do() -> Seq<char> {
    seq!['n', 'o', 't', 'h', 'i', 'n', 'g', ' ', 't', 'o', ' ', 'd', 'o']
}

/// The message of an empty listing that no term filters.
pub fn nothing_to_do_message() -> (r: String)
    ensures
        r@ == msg_nothing_to_do(),
{
    let mut r = String::new();
    let cs = ['n', 'o', 't', 'h', 'i', 'n', 'g', ' ', 't', 'o', ' ', 'd', 'o'];
    push_chars(&mut r, &cs);
    assert(r@ =~= msg_nothing_to_do());
    r
}

/// The message of an empty listing under terms.
pub open spec fn msg_no_matching_task() -> Seq<char> {
    seq!['n', 'o', ' ', 'm', 'a', 't', 'c', 'h', 'i', 'n', 'g', ' ', 't', 'a', 's', 'k']
}

/// The message of an empty listing under terms.
pub fn no_matching_task_message() -> (r: String)
    ensures
        r@ == msg_no_matching_task(),
{
    let mut r = String::new();
    let cs = ['n', 'o', ' ', 'm', 'a', 't', 'c', 'h', 'i', 'n', 'g', ' ', 't', 'a', 's', 'k'];
    push_chars(&mut r, &cs);
    assert(r@ =~= msg_no_matching_task());
    r
}

/// The message of a priority that is not one letter from `A` to `E`.
pub open spec fn msg_priority_letter() -> Seq<char> {
    seq!['p', 'r', 'i', 'o', 'r', 'i', 't', 'y', ' ', 'm', 'u', 's', 't', ' ', 'b', 'e', ' ', 'a', ' ', 's', 'i', 'n', 'g', 'l', 'e', ' ', 'l', 'e', 't', 't', 'e', 'r', ' ', 'f', 'r', 'o', 'm', ' ', 'A', ' ', 't', 'o', ' ', 'E']
}

/// The message of a priority that is not one letter from `A` to `E`.
pub fn priority_letter_message() -> (r: String)
    ensures
        r@ == msg_priority_letter(),
{
    let mut r = String::new();
    let cs = ['p', 'r', 'i', 'o', 'r', 'i', 't', 'y', ' ', 'm', 'u', 's', 't', ' ', 'b', 'e', ' ', 'a', ' ', 's', 'i', 'n', 'g', 'l', 'e', ' ', 'l', 'e', 't', 't', 'e', 'r', ' ', 'f', 'r', 'o', 'm', ' ', 'A', ' ', 't', 'o', ' ', 'E'];
    push_chars(&mut r, &cs);
    assert(r@ =~= msg_priority_letter());
    r
}

/// The message of a task given a priority both in its text and by flag.
pub open spec fn msg_priority_twice() -> Seq<char> {
    seq!['p', 'r', 'i', 'o', 'r', 'i', 't', 'y', ' ', 'g', 'i', 'v', 'e', 'n', ' ', 't', 'w', 'i', 'c', 'e']
}

/// The message of a task given a priority both in its text and by flag.
pub fn priority_twice_message() -> (r: String)
    ensures
        r@ == msg_priority_twice(),
{
    let mut r = String::new();
    let cs = ['p', 'r', 'i', 'o', 'r', 'i', 't', 'y', ' ', 'g', 'i', 'v', 'e', 'n', ' ', 't', 'w', 'i', 'c', 'e'];
    push_chars(&mut r, &cs);
    assert(r@ =~= msg_priority_twice());
    r
}

/// The start of the message of a number that names no task.
pub open spec fn msg_no_task_numbered() -> Seq<char> {
    seq!['n', 'o', ' ', 't', 'a', 's', 'k', ' ', 'n', 'u', 'm', 'b', 'e', 'r', 'e', 'd', ' ']
}

/// The start of the message of a number that names no task.
pub fn no_task_numbered_message() -> (r: String)
    ensures
        r@ == msg_no_task_numbered(),
{
    let mut r = String::new();
    let cs = ['n', 'o', ' ', 't', 'a', 's', 'k', ' ', 'n', 'u', 'm', 'b', 'e', 'r', 'e', 'd', ' '];
    push_chars(&mut r, &cs);
    assert(r@ =~= msg_no_task_numbered());
    r
}

} // verus!
