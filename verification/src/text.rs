//! Fixed byte strings of the text protocol: replies, command words and statistic names.
//!
//! Each string has a spec function that gives its bytes and an executable twin that
//! returns them as an array; the twin's contract ties the two together.

use vstd::prelude::*;

verus! {
/// `STORED\r\n`: Reply to a storage command that stored its value.
pub open spec fn stored_line() -> Seq<u8> {
    seq![83, 84, 79, 82, 69, 68, 13, 10]
}

/// Executable form of [`stored_line`].
pub fn stored_line_bytes() -> (r: [u8; 8])
    ensures
        r@ == stored_line(),
{
    [83, 84, 79, 82, 69, 68, 13, 10]
}

/// `NOT_STORED\r\n`: Reply to a conditional storage command whose condition failed.
pub open spec fn not_stored_line() -> Seq<u8> {
    seq![78, 79, 84, 95, 83, 84, 79, 82, 69, 68, 13, 10]
}

/// Executable form of [`not_stored_line`].
pub fn not_stored_line_bytes() -> (r: [u8; 12])
    ensures
        r@ == not_stored_line(),
{
    [78, 79, 84, 95, 83, 84, 79, 82, 69, 68, 13, 10]
}

/// `EXISTS\r\n`: Reply to a `cas` whose token does not match.
pub open spec fn exists_line() -> Seq<u8> {
    seq![69, 88, 73, 83, 84, 83, 13, 10]
}

/// Executable form of [`exists_line`].
pub fn exists_line_bytes() -> (r: [u8; 8])
    ensures
        r@ == exists_line(),
{
    [69, 88, 73, 83, 84, 83, 13, 10]
}

/// `NOT_FOUND\r\n`: Reply to a command whose key is absent.
pub open spec fn not_found_line() -> Seq<u8> {
    seq![78, 79, 84, 95, 70, 79, 85, 78, 68, 13, 10]
}

/// Executable form of [`not_found_line`].
pub fn not_found_line_bytes() -> (r: [u8; 11])
    ensures
        r@ == not_found_line(),
{
    [78, 79, 84, 95, 70, 79, 85, 78, 68, 13, 10]
}

/// `DELETED\r\n`: Reply to a `delete` that removed its key.
pub open spec fn deleted_line() -> Seq<u8> {
    seq![68, 69, 76, 69, 84, 69, 68, 13, 10]
}

/// Executable form of [`deleted_line`].
pub fn deleted_line_bytes() -> (r: [u8; 9])
    ensures
        r@ == deleted_line(),
{
    [68, 69, 76, 69, 84, 69, 68, 13, 10]
}

/// `TOUCHED\r\n`: Reply to a `touch` that found its key.
pub open spec fn touched_line() -> Seq<u8> {
    seq![84, 79, 85, 67, 72, 69, 68, 13, 10]
}

/// Executable form of [`touched_line`].
pub fn touched_line_bytes() -> (r: [u8; 9])
    ensures
        r@ == touched_line(),
{
    [84, 79, 85, 67, 72, 69, 68, 13, 10]
}

/// `OK\r\n`: Reply to `flush_all`.
pub open spec fn ok_line() -> Seq<u8> {
    seq![79, 75, 13, 10]
}

/// Executable form of [`ok_line`].
pub fn ok_line_bytes() -> (r: [u8; 4])
    ensures
        r@ == ok_line(),
{
    [79, 75, 13, 10]
}

/// `END\r\n`: Terminator of a retrieval or `stats` reply.
pub open spec fn end_line() -> Seq<u8> {
    seq![69, 78, 68, 13, 10]
}

/// Executable form of [`end_line`].
pub fn end_line_bytes() -> (r: [u8; 5])
    ensures
        r@ == end_line(),
{
    [69, 78, 68, 13, 10]
}

/// `ERROR\r\n`: Reply to input that is no known command.
pub open spec fn error_line() -> Seq<u8> {
    seq![69, 82, 82, 79, 82, 13, 10]
}

/// Executable form of [`error_line`].
pub fn error_line_bytes() -> (r: [u8; 7])
    ensures
        r@ == error_line(),
{
    [69, 82, 82, 79, 82, 13, 10]
}

/// `CLIENT_ERROR bad command line format\r\n`: Reply to a command whose key is too long or holds control bytes.
pub open spec fn bad_format_line() -> Seq<u8> {
    seq![67, 76, 73, 69, 78, 84, 95, 69, 82, 82, 79, 82, 32, 98, 97, 100, 32, 99, 111, 109, 109, 97, 110, 100, 32, 108, 105, 110, 101, 32, 102, 111, 114, 109, 97, 116, 13, 10]
}

/// Executable form of [`bad_format_line`].
pub fn bad_format_line_bytes() -> (r: [u8; 38])
    ensures
        r@ == bad_format_line(),
{
    [67, 76, 73, 69, 78, 84, 95, 69, 82, 82, 79, 82, 32, 98, 97, 100, 32, 99, 111, 109, 109, 97, 110, 100, 32, 108, 105, 110, 101, 32, 102, 111, 114, 109, 97, 116, 13, 10]
}

/// `CLIENT_ERROR cannot increment or decrement non-numeric value\r\n`: Reply to `incr`/`decr` on a value that is no decimal number.
pub open spec fn non_numeric_line() -> Seq<u8> {
    seq![67, 76, 73, 69, 78, 84, 95, 69, 82, 82, 79, 82, 32, 99, 97, 110, 110, 111, 116, 32, 105, 110, 99, 114, 101, 109, 101, 110, 116, 32, 111, 114, 32, 100, 101, 99, 114, 101, 109, 101, 110, 116, 32, 110, 111, 110, 45, 110, 117, 109, 101, 114, 105, 99, 32, 118, 97, 108, 117, 101, 13, 10]
}

/// Executable form of [`non_numeric_line`].
pub fn non_numeric_line_bytes() -> (r: [u8; 62])
    ensures
        r@ == non_numeric_line(),
{
    [67, 76, 73, 69, 78, 84, 95, 69, 82, 82, 79, 82, 32, 99, 97, 110, 110, 111, 116, 32, 105, 110, 99, 114, 101, 109, 101, 110, 116, 32, 111, 114, 32, 100, 101, 99, 114, 101, 109, 101, 110, 116, 32, 110, 111, 110, 45, 110, 117, 109, 101, 114, 105, 99, 32, 118, 97, 108, 117, 101, 13, 10]
}

/// `VERSION Goldfish 1.0\r\n`: Reply to `version`.
pub open spec fn version_line() -> Seq<u8> {
    seq![86, 69, 82, 83, 73, 79, 78, 32, 71, 111, 108, 100, 102, 105, 115, 104, 32, 49, 46, 48, 13, 10]
}

/// Executable form of [`version_line`].
pub fn version_line_bytes() -> (r: [u8; 22])
    ensures
        r@ == version_line(),
{
    [86, 69, 82, 83, 73, 79, 78, 32, 71, 111, 108, 100, 102, 105, 115, 104, 32, 49, 46, 48, 13, 10]
}

/// `VERSION 1.0\r\n`: Reply of the minimal line server to `version`.
pub open spec fn short_version() -> Seq<u8> {
    seq![86, 69, 82, 83, 73, 79, 78, 32, 49, 46, 48, 13, 10]
}

/// Executable form of [`short_version`].
pub fn short_version_bytes() -> (r: [u8; 13])
    ensures
        r@ == short_version(),
{
    [86, 69, 82, 83, 73, 79, 78, 32, 49, 46, 48, 13, 10]
}

/// `CLIENT_ERROR could not recognize command\r\n`: Reply of the minimal line server to a line it cannot read.
pub open spec fn unrecognized_line() -> Seq<u8> {
    seq![67, 76, 73, 69, 78, 84, 95, 69, 82, 82, 79, 82, 32, 99, 111, 117, 108, 100, 32, 110, 111, 116, 32, 114, 101, 99, 111, 103, 110, 105, 122, 101, 32, 99, 111, 109, 109, 97, 110, 100, 13, 10]
}

/// Executable form of [`unrecognized_line`].
pub fn unrecognized_line_bytes() -> (r: [u8; 42])
    ensures
        r@ == unrecognized_line(),
{
    [67, 76, 73, 69, 78, 84, 95, 69, 82, 82, 79, 82, 32, 99, 111, 117, 108, 100, 32, 110, 111, 116, 32, 114, 101, 99, 111, 103, 110, 105, 122, 101, 32, 99, 111, 109, 109, 97, 110, 100, 13, 10]
}

/// `SERVER_ERROR not implemented\r\n`: Reply of the minimal line server to a command it does not serve.
pub open spec fn not_implemented_line() -> Seq<u8> {
    seq![83, 69, 82, 86, 69, 82, 95, 69, 82, 82, 79, 82, 32, 110, 111, 116, 32, 105, 109, 112, 108, 101, 109, 101, 110, 116, 101, 100, 13, 10]
}

/// Executable form of [`not_implemented_line`].
pub fn not_implemented_line_bytes() -> (r: [u8; 30])
    ensures
        r@ == not_implemented_line(),
{
    [83, 69, 82, 86, 69, 82, 95, 69, 82, 82, 79, 82, 32, 110, 111, 116, 32, 105, 109, 112, 108, 101, 109, 101, 110, 116, 101, 100, 13, 10]
}

/// `VALUE `: Start of an item line in a retrieval reply.
pub open spec fn value_prefix() -> Seq<u8> {
    seq![86, 65, 76, 85, 69, 32]
}

/// Executable form of [`value_prefix`].
pub fn value_prefix_bytes() -> (r: [u8; 6])
    ensures
        r@ == value_prefix(),
{
    [86, 65, 76, 85, 69, 32]
}

/// `VERSION `: Start of a version reply.
pub open spec fn version_prefix() -> Seq<u8> {
    seq![86, 69, 82, 83, 73, 79, 78, 32]
}

/// Executable form of [`version_prefix`].
pub fn version_prefix_bytes() -> (r: [u8; 8])
    ensures
        r@ == version_prefix(),
{
    [86, 69, 82, 83, 73, 79, 78, 32]
}

/// `STAT `: Start of a statistics line.
pub open spec fn stat_prefix() -> Seq<u8> {
    seq![83, 84, 65, 84, 32]
}

/// Executable form of [`stat_prefix`].
pub fn stat_prefix_bytes() -> (r: [u8; 5])
    ensures
        r@ == stat_prefix(),
{
    [83, 84, 65, 84, 32]
}

/// ` `: A single space.
pub open spec fn space() -> Seq<u8> {
    seq![32]
}

/// Executable form of [`space`].
pub fn space_bytes() -> (r: [u8; 1])
    ensures
        r@ == space(),
{
    [32]
}

/// `\r\n`: Line terminator.
pub open spec fn crlf() -> Seq<u8> {
    seq![13, 10]
}

/// Executable form of [`crlf`].
pub fn crlf_bytes() -> (r: [u8; 2])
    ensures
        r@ == crlf(),
{
    [13, 10]
}

/// The bytes `quit`.
pub open spec fn tag_quit() -> Seq<u8> {
    seq![113, 117, 105, 116]
}

/// Executable form of [`tag_quit`].
pub fn tag_quit_bytes() -> (r: [u8; 4])
    ensures
        r@ == tag_quit(),
{
    [113, 117, 105, 116]
}

/// The bytes `version`.
pub open spec fn tag_version() -> Seq<u8> {
    seq![118, 101, 114, 115, 105, 111, 110]
}

/// Executable form of [`tag_version`].
pub fn tag_version_bytes() -> (r: [u8; 7])
    ensures
        r@ == tag_version(),
{
    [118, 101, 114, 115, 105, 111, 110]
}

/// The bytes `delete`.
pub open spec fn tag_delete() -> Seq<u8> {
    seq![100, 101, 108, 101, 116, 101]
}

/// Executable form of [`tag_delete`].
pub fn tag_delete_bytes() -> (r: [u8; 6])
    ensures
        r@ == tag_delete(),
{
    [100, 101, 108, 101, 116, 101]
}

/// The bytes `add`.
pub open spec fn tag_add() -> Seq<u8> {
    seq![97, 100, 100]
}

/// Executable form of [`tag_add`].
pub fn tag_add_bytes() -> (r: [u8; 3])
    ensures
        r@ == tag_add(),
{
    [97, 100, 100]
}

/// The bytes `append`.
pub open spec fn tag_append() -> Seq<u8> {
    seq![97, 112, 112, 101, 110, 100]
}

/// Executable form of [`tag_append`].
pub fn tag_append_bytes() -> (r: [u8; 6])
    ensures
        r@ == tag_append(),
{
    [97, 112, 112, 101, 110, 100]
}

/// The bytes `prepend`.
pub open spec fn tag_prepend() -> Seq<u8> {
    seq![112, 114, 101, 112, 101, 110, 100]
}

/// Executable form of [`tag_prepend`].
pub fn tag_prepend_bytes() -> (r: [u8; 7])
    ensures
        r@ == tag_prepend(),
{
    [112, 114, 101, 112, 101, 110, 100]
}

/// The bytes `incr`.
pub open spec fn tag_incr() -> Seq<u8> {
    seq![105, 110, 99, 114]
}

/// Executable form of [`tag_incr`].
pub fn tag_incr_bytes() -> (r: [u8; 4])
    ensures
        r@ == tag_incr(),
{
    [105, 110, 99, 114]
}

/// The bytes `decr`.
pub open spec fn tag_decr() -> Seq<u8> {
    seq![100, 101, 99, 114]
}

/// Executable form of [`tag_decr`].
pub fn tag_decr_bytes() -> (r: [u8; 4])
    ensures
        r@ == tag_decr(),
{
    [100, 101, 99, 114]
}

/// The bytes `flush_all`.
pub open spec fn tag_flush_all() -> Seq<u8> {
    seq![102, 108, 117, 115, 104, 95, 97, 108, 108]
}

/// Executable form of [`tag_flush_all`].
pub fn tag_flush_all_bytes() -> (r: [u8; 9])
    ensures
        r@ == tag_flush_all(),
{
    [102, 108, 117, 115, 104, 95, 97, 108, 108]
}

/// The bytes `replace`.
pub open spec fn tag_replace() -> Seq<u8> {
    seq![114, 101, 112, 108, 97, 99, 101]
}

/// Executable form of [`tag_replace`].
pub fn tag_replace_bytes() -> (r: [u8; 7])
    ensures
        r@ == tag_replace(),
{
    [114, 101, 112, 108, 97, 99, 101]
}

/// The bytes `set`.
pub open spec fn tag_set() -> Seq<u8> {
    seq![115, 101, 116]
}

/// Executable form of [`tag_set`].
pub fn tag_set_bytes() -> (r: [u8; 3])
    ensures
        r@ == tag_set(),
{
    [115, 101, 116]
}

/// The bytes `cas`.
pub open spec fn tag_cas() -> Seq<u8> {
    seq![99, 97, 115]
}

/// Executable form of [`tag_cas`].
pub fn tag_cas_bytes() -> (r: [u8; 3])
    ensures
        r@ == tag_cas(),
{
    [99, 97, 115]
}

/// The bytes `gats`.
pub open spec fn tag_gats() -> Seq<u8> {
    seq![103, 97, 116, 115]
}

/// Executable form of [`tag_gats`].
pub fn tag_gats_bytes() -> (r: [u8; 4])
    ensures
        r@ == tag_gats(),
{
    [103, 97, 116, 115]
}

/// The bytes `gat`.
pub open spec fn tag_gat() -> Seq<u8> {
    seq![103, 97, 116]
}

/// Executable form of [`tag_gat`].
pub fn tag_gat_bytes() -> (r: [u8; 3])
    ensures
        r@ == tag_gat(),
{
    [103, 97, 116]
}

/// The bytes `gets`.
pub open spec fn tag_gets() -> Seq<u8> {
    seq![103, 101, 116, 115]
}

/// Executable form of [`tag_gets`].
pub fn tag_gets_bytes() -> (r: [u8; 4])
    ensures
        r@ == tag_gets(),
{
    [103, 101, 116, 115]
}

/// The bytes `get`.
pub open spec fn tag_get() -> Seq<u8> {
    seq![103, 101, 116]
}

/// Executable form of [`tag_get`].
pub fn tag_get_bytes() -> (r: [u8; 3])
    ensures
        r@ == tag_get(),
{
    [103, 101, 116]
}

/// The bytes `touch`.
pub open spec fn tag_touch() -> Seq<u8> {
    seq![116, 111, 117, 99, 104]
}

/// Executable form of [`tag_touch`].
pub fn tag_touch_bytes() -> (r: [u8; 5])
    ensures
        r@ == tag_touch(),
{
    [116, 111, 117, 99, 104]
}

/// The bytes `stats`.
pub open spec fn tag_stats() -> Seq<u8> {
    seq![115, 116, 97, 116, 115]
}

/// Executable form of [`tag_stats`].
pub fn tag_stats_bytes() -> (r: [u8; 5])
    ensures
        r@ == tag_stats(),
{
    [115, 116, 97, 116, 115]
}

/// The bytes `noreply`.
pub open spec fn tag_noreply() -> Seq<u8> {
    seq![110, 111, 114, 101, 112, 108, 121]
}

/// Executable form of [`tag_noreply`].
pub fn tag_noreply_bytes() -> (r: [u8; 7])
    ensures
        r@ == tag_noreply(),
{
    [110, 111, 114, 101, 112, 108, 121]
}

/// The bytes `set `.
pub open spec fn kw_set() -> Seq<u8> {
    seq![115, 101, 116, 32]
}

/// Executable form of [`kw_set`].
pub fn kw_set_bytes() -> (r: [u8; 4])
    ensures
        r@ == kw_set(),
{
    [115, 101, 116, 32]
}

/// The bytes `add `.
pub open spec fn kw_add() -> Seq<u8> {
    seq![97, 100, 100, 32]
}

/// Executable form of [`kw_add`].
pub fn kw_add_bytes() -> (r: [u8; 4])
    ensures
        r@ == kw_add(),
{
    [97, 100, 100, 32]
}

/// The bytes `replace `.
pub open spec fn kw_replace() -> Seq<u8> {
    seq![114, 101, 112, 108, 97, 99, 101, 32]
}

/// Executable form of [`kw_replace`].
pub fn kw_replace_bytes() -> (r: [u8; 8])
    ensures
        r@ == kw_replace(),
{
    [114, 101, 112, 108, 97, 99, 101, 32]
}

/// The bytes `append `.
pub open spec fn kw_append() -> Seq<u8> {
    seq![97, 112, 112, 101, 110, 100, 32]
}

/// Executable form of [`kw_append`].
pub fn kw_append_bytes() -> (r: [u8; 7])
    ensures
        r@ == kw_append(),
{
    [97, 112, 112, 101, 110, 100, 32]
}

/// The bytes `prepend `.
pub open spec fn kw_prepend() -> Seq<u8> {
    seq![112, 114, 101, 112, 101, 110, 100, 32]
}

/// Executable form of [`kw_prepend`].
pub fn kw_prepend_bytes() -> (r: [u8; 8])
    ensures
        r@ == kw_prepend(),
{
    [112, 114, 101, 112, 101, 110, 100, 32]
}

/// The bytes `cas `.
pub open spec fn kw_cas() -> Seq<u8> {
    seq![99, 97, 115, 32]
}

/// Executable form of [`kw_cas`].
pub fn kw_cas_bytes() -> (r: [u8; 4])
    ensures
        r@ == kw_cas(),
{
    [99, 97, 115, 32]
}

/// The bytes `get `.
pub open spec fn kw_get() -> Seq<u8> {
    seq![103, 101, 116, 32]
}

/// Executable form of [`kw_get`].
pub fn kw_get_bytes() -> (r: [u8; 4])
    ensures
        r@ == kw_get(),
{
    [103, 101, 116, 32]
}

/// The bytes `gets `.
pub open spec fn kw_gets() -> Seq<u8> {
    seq![103, 101, 116, 115, 32]
}

/// Executable form of [`kw_gets`].
pub fn kw_gets_bytes() -> (r: [u8; 5])
    ensures
        r@ == kw_gets(),
{
    [103, 101, 116, 115, 32]
}

/// The bytes `gat `.
pub open spec fn kw_gat() -> Seq<u8> {
    seq![103, 97, 116, 32]
}

/// Executable form of [`kw_gat`].
pub fn kw_gat_bytes() -> (r: [u8; 4])
    ensures
        r@ == kw_gat(),
{
    [103, 97, 116, 32]
}

/// The bytes `gats `.
pub open spec fn kw_gats() -> Seq<u8> {
    seq![103, 97, 116, 115, 32]
}

/// Executable form of [`kw_gats`].
pub fn kw_gats_bytes() -> (r: [u8; 5])
    ensures
        r@ == kw_gats(),
{
    [103, 97, 116, 115, 32]
}

/// The bytes `delete `.
pub open spec fn kw_delete() -> Seq<u8> {
    seq![100, 101, 108, 101, 116, 101, 32]
}

/// Executable form of [`kw_delete`].
pub fn kw_delete_bytes() -> (r: [u8; 7])
    ensures
        r@ == kw_delete(),
{
    [100, 101, 108, 101, 116, 101, 32]
}

/// The bytes `incr `.
pub open spec fn kw_incr() -> Seq<u8> {
    seq![105, 110, 99, 114, 32]
}

/// Executable form of [`kw_incr`].
pub fn kw_incr_bytes() -> (r: [u8; 5])
    ensures
        r@ == kw_incr(),
{
    [105, 110, 99, 114, 32]
}

/// The bytes `decr `.
pub open spec fn kw_decr() -> Seq<u8> {
    seq![100, 101, 99, 114, 32]
}

/// Executable form of [`kw_decr`].
pub fn kw_decr_bytes() -> (r: [u8; 5])
    ensures
        r@ == kw_decr(),
{
    [100, 101, 99, 114, 32]
}

/// The bytes `touch `.
pub open spec fn kw_touch() -> Seq<u8> {
    seq![116, 111, 117, 99, 104, 32]
}

/// Executable form of [`kw_touch`].
pub fn kw_touch_bytes() -> (r: [u8; 6])
    ensures
        r@ == kw_touch(),
{
    [116, 111, 117, 99, 104, 32]
}

/// The bytes `pid`.
pub open spec fn stat_pid() -> Seq<u8> {
    seq![112, 105, 100]
}

/// Executable form of [`stat_pid`].
pub fn stat_pid_bytes() -> (r: [u8; 3])
    ensures
        r@ == stat_pid(),
{
    [112, 105, 100]
}

/// The bytes `uptime`.
pub open spec fn stat_uptime() -> Seq<u8> {
    seq![117, 112, 116, 105, 109, 101]
}

/// Executable form of [`stat_uptime`].
pub fn stat_uptime_bytes() -> (r: [u8; 6])
    ensures
        r@ == stat_uptime(),
{
    [117, 112, 116, 105, 109, 101]
}

/// The bytes `time`.
pub open spec fn stat_time() -> Seq<u8> {
    seq![116, 105, 109, 101]
}

/// Executable form of [`stat_time`].
pub fn stat_time_bytes() -> (r: [u8; 4])
    ensures
        r@ == stat_time(),
{
    [116, 105, 109, 101]
}

/// The bytes `pointer_size`.
pub open spec fn stat_pointer_size() -> Seq<u8> {
    seq![112, 111, 105, 110, 116, 101, 114, 95, 115, 105, 122, 101]
}

/// Executable form of [`stat_pointer_size`].
pub fn stat_pointer_size_bytes() -> (r: [u8; 12])
    ensures
        r@ == stat_pointer_size(),
{
    [112, 111, 105, 110, 116, 101, 114, 95, 115, 105, 122, 101]
}

/// The bytes `curr_items`.
pub open spec fn stat_curr_items() -> Seq<u8> {
    seq![99, 117, 114, 114, 95, 105, 116, 101, 109, 115]
}

/// Executable form of [`stat_curr_items`].
pub fn stat_curr_items_bytes() -> (r: [u8; 10])
    ensures
        r@ == stat_curr_items(),
{
    [99, 117, 114, 114, 95, 105, 116, 101, 109, 115]
}

/// The bytes `total_items`.
pub open spec fn stat_total_items() -> Seq<u8> {
    seq![116, 111, 116, 97, 108, 95, 105, 116, 101, 109, 115]
}

/// Executable form of [`stat_total_items`].
pub fn stat_total_items_bytes() -> (r: [u8; 11])
    ensures
        r@ == stat_total_items(),
{
    [116, 111, 116, 97, 108, 95, 105, 116, 101, 109, 115]
}

/// The bytes `bytes`.
pub open spec fn stat_bytes() -> Seq<u8> {
    seq![98, 121, 116, 101, 115]
}

/// Executable form of [`stat_bytes`].
pub fn stat_bytes_bytes() -> (r: [u8; 5])
    ensures
        r@ == stat_bytes(),
{
    [98, 121, 116, 101, 115]
}

/// The bytes `curr_connections`.
pub open spec fn stat_curr_connections() -> Seq<u8> {
    seq![99, 117, 114, 114, 95, 99, 111, 110, 110, 101, 99, 116, 105, 111, 110, 115]
}

/// Executable form of [`stat_curr_connections`].
pub fn stat_curr_connections_bytes() -> (r: [u8; 16])
    ensures
        r@ == stat_curr_connections(),
{
    [99, 117, 114, 114, 95, 99, 111, 110, 110, 101, 99, 116, 105, 111, 110, 115]
}

/// The bytes `total_connections`.
pub open spec fn stat_total_connections() -> Seq<u8> {
    seq![116, 111, 116, 97, 108, 95, 99, 111, 110, 110, 101, 99, 116, 105, 111, 110, 115]
}

/// Executable form of [`stat_total_connections`].
pub fn stat_total_connections_bytes() -> (r: [u8; 17])
    ensures
        r@ == stat_total_connections(),
{
    [116, 111, 116, 97, 108, 95, 99, 111, 110, 110, 101, 99, 116, 105, 111, 110, 115]
}

/// The bytes `connection_structures`.
pub open spec fn stat_connection_structures() -> Seq<u8> {
    seq![99, 111, 110, 110, 101, 99, 116, 105, 111, 110, 95, 115, 116, 114, 117, 99, 116, 117, 114, 101, 115]
}

/// Executable form of [`stat_connection_structures`].
pub fn stat_connection_structures_bytes() -> (r: [u8; 21])
    ensures
        r@ == stat_connection_structures(),
{
    [99, 111, 110, 110, 101, 99, 116, 105, 111, 110, 95, 115, 116, 114, 117, 99, 116, 117, 114, 101, 115]
}

/// The bytes `cmd_get`.
pub open spec fn stat_cmd_get() -> Seq<u8> {
    seq![99, 109, 100, 95, 103, 101, 116]
}

/// Executable form of [`stat_cmd_get`].
pub fn stat_cmd_get_bytes() -> (r: [u8; 7])
    ensures
        r@ == stat_cmd_get(),
{
    [99, 109, 100, 95, 103, 101, 116]
}

/// The bytes `cmd_set`.
pub open spec fn stat_cmd_set() -> Seq<u8> {
    seq![99, 109, 100, 95, 115, 101, 116]
}

/// Executable form of [`stat_cmd_set`].
pub fn stat_cmd_set_bytes() -> (r: [u8; 7])
    ensures
        r@ == stat_cmd_set(),
{
    [99, 109, 100, 95, 115, 101, 116]
}

/// The bytes `get_hits`.
pub open spec fn stat_get_hits() -> Seq<u8> {
    seq![103, 101, 116, 95, 104, 105, 116, 115]
}

/// Executable form of [`stat_get_hits`].
pub fn stat_get_hits_bytes() -> (r: [u8; 8])
    ensures
        r@ == stat_get_hits(),
{
    [103, 101, 116, 95, 104, 105, 116, 115]
}

/// The bytes `get_misses`.
pub open spec fn stat_get_misses() -> Seq<u8> {
    seq![103, 101, 116, 95, 109, 105, 115, 115, 101, 115]
}

/// Executable form of [`stat_get_misses`].
pub fn stat_get_misses_bytes() -> (r: [u8; 10])
    ensures
        r@ == stat_get_misses(),
{
    [103, 101, 116, 95, 109, 105, 115, 115, 101, 115]
}

/// The bytes `evictions`.
pub open spec fn stat_evictions() -> Seq<u8> {
    seq![101, 118, 105, 99, 116, 105, 111, 110, 115]
}

/// Executable form of [`stat_evictions`].
pub fn stat_evictions_bytes() -> (r: [u8; 9])
    ensures
        r@ == stat_evictions(),
{
    [101, 118, 105, 99, 116, 105, 111, 110, 115]
}

/// The bytes `bytes_read`.
pub open spec fn stat_bytes_read() -> Seq<u8> {
    seq![98, 121, 116, 101, 115, 95, 114, 101, 97, 100]
}

/// Executable form of [`stat_bytes_read`].
pub fn stat_bytes_read_bytes() -> (r: [u8; 10])
    ensures
        r@ == stat_bytes_read(),
{
    [98, 121, 116, 101, 115, 95, 114, 101, 97, 100]
}

/// The bytes `bytes_written`.
pub open spec fn stat_bytes_written() -> Seq<u8> {
    seq![98, 121, 116, 101, 115, 95, 119, 114, 105, 116, 116, 101, 110]
}

/// Executable form of [`stat_bytes_written`].
pub fn stat_bytes_written_bytes() -> (r: [u8; 13])
    ensures
        r@ == stat_bytes_written(),
{
    [98, 121, 116, 101, 115, 95, 119, 114, 105, 116, 116, 101, 110]
}

/// The bytes `limit_maxbytes`.
pub open spec fn stat_limit_maxbytes() -> Seq<u8> {
    seq![108, 105, 109, 105, 116, 95, 109, 97, 120, 98, 121, 116, 101, 115]
}

/// Executable form of [`stat_limit_maxbytes`].
pub fn stat_limit_maxbytes_bytes() -> (r: [u8; 14])
    ensures
        r@ == stat_limit_maxbytes(),
{
    [108, 105, 109, 105, 116, 95, 109, 97, 120, 98, 121, 116, 101, 115]
}

/// The bytes `goldfish 0.1.0`.
pub open spec fn server_version() -> Seq<u8> {
    seq![103, 111, 108, 100, 102, 105, 115, 104, 32, 48, 46, 49, 46, 48]
}

/// Executable form of [`server_version`].
pub fn server_version_bytes() -> (r: [u8; 14])
    ensures
        r@ == server_version(),
{
    [103, 111, 108, 100, 102, 105, 115, 104, 32, 48, 46, 49, 46, 48]
}

/// The bytes `0`.
pub open spec fn zero() -> Seq<u8> {
    seq![48]
}

/// Executable form of [`zero`].
pub fn zero_bytes() -> (r: [u8; 1])
    ensures
        r@ == zero(),
{
    [48]
}

} // verus!
