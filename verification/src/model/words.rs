//! The bytes of the words that the text protocol is made of.

use crate::text::lit;
use vstd::prelude::*;
use vstd::string::{is_ascii_spec_bytes, StringSliceAdditionalSpecFns};
use vstd::utf8::is_ascii_chars;

verus! {

/// The bytes of `get `.
pub proof fn word_get_()
    ensures
        lit("get ") == seq![0x67u8, 0x65, 0x74, 0x20],
{
    reveal_strlit("get ");
    assert(is_ascii_chars("get "@));
    is_ascii_spec_bytes("get ");
    assert(lit("get ") =~= seq![0x67u8, 0x65, 0x74, 0x20]);
}

/// The bytes of `delete `.
pub proof fn word_delete_()
    ensures
        lit("delete ") == seq![0x64u8, 0x65, 0x6c, 0x65, 0x74, 0x65, 0x20],
{
    reveal_strlit("delete ");
    assert(is_ascii_chars("delete "@));
    is_ascii_spec_bytes("delete ");
    assert(lit("delete ") =~= seq![0x64u8, 0x65, 0x6c, 0x65, 0x74, 0x65, 0x20]);
}

/// The bytes of `touch `.
pub proof fn word_touch_()
    ensures
        lit("touch ") == seq![0x74u8, 0x6f, 0x75, 0x63, 0x68, 0x20],
{
    reveal_strlit("touch ");
    assert(is_ascii_chars("touch "@));
    is_ascii_spec_bytes("touch ");
    assert(lit("touch ") =~= seq![0x74u8, 0x6f, 0x75, 0x63, 0x68, 0x20]);
}

/// The bytes of `flush_all\r\n`.
pub proof fn word_flush_all_line()
    ensures
        lit("flush_all\r\n") == seq![0x66u8, 0x6c, 0x75, 0x73, 0x68, 0x5f, 0x61, 0x6c, 0x6c, 0x0d, 0x0a],
{
    reveal_strlit("flush_all\r\n");
    assert(is_ascii_chars("flush_all\r\n"@));
    is_ascii_spec_bytes("flush_all\r\n");
    assert(lit("flush_all\r\n") =~= seq![0x66u8, 0x6c, 0x75, 0x73, 0x68, 0x5f, 0x61, 0x6c, 0x6c, 0x0d, 0x0a]);
}

/// The bytes of ` `.
pub proof fn word_space()
    ensures
        lit(" ") == seq![0x20u8],
{
    reveal_strlit(" ");
    assert(is_ascii_chars(" "@));
    is_ascii_spec_bytes(" ");
    assert(lit(" ") =~= seq![0x20u8]);
}

/// The bytes of ` 0 `.
pub proof fn word_zero_flags()
    ensures
        lit(" 0 ") == seq![0x20u8, 0x30, 0x20],
{
    reveal_strlit(" 0 ");
    assert(is_ascii_chars(" 0 "@));
    is_ascii_spec_bytes(" 0 ");
    assert(lit(" 0 ") =~= seq![0x20u8, 0x30, 0x20]);
}

/// The bytes of `\r\n`.
pub proof fn word_line_end()
    ensures
        lit("\r\n") == seq![0x0du8, 0x0a],
{
    reveal_strlit("\r\n");
    assert(is_ascii_chars("\r\n"@));
    is_ascii_spec_bytes("\r\n");
    assert(lit("\r\n") =~= seq![0x0du8, 0x0a]);
}

/// The bytes of `set`.
pub proof fn word_set()
    ensures
        lit("set") == seq![0x73u8, 0x65, 0x74],
{
    reveal_strlit("set");
    assert(is_ascii_chars("set"@));
    is_ascii_spec_bytes("set");
    assert(lit("set") =~= seq![0x73u8, 0x65, 0x74]);
}

/// The bytes of `add`.
pub proof fn word_add()
    ensures
        lit("add") == seq![0x61u8, 0x64, 0x64],
{
    reveal_strlit("add");
    assert(is_ascii_chars("add"@));
    is_ascii_spec_bytes("add");
    assert(lit("add") =~= seq![0x61u8, 0x64, 0x64]);
}

/// The bytes of `replace`.
pub proof fn word_replace()
    ensures
        lit("replace") == seq![0x72u8, 0x65, 0x70, 0x6c, 0x61, 0x63, 0x65],
{
    reveal_strlit("replace");
    assert(is_ascii_chars("replace"@));
    is_ascii_spec_bytes("replace");
    assert(lit("replace") =~= seq![0x72u8, 0x65, 0x70, 0x6c, 0x61, 0x63, 0x65]);
}

/// The bytes of `cas`.
pub proof fn word_cas()
    ensures
        lit("cas") == seq![0x63u8, 0x61, 0x73],
{
    reveal_strlit("cas");
    assert(is_ascii_chars("cas"@));
    is_ascii_spec_bytes("cas");
    assert(lit("cas") =~= seq![0x63u8, 0x61, 0x73]);
}

/// The bytes of `VALUE`.
pub proof fn word_value()
    ensures
        lit("VALUE") == seq![0x56u8, 0x41, 0x4c, 0x55, 0x45],
{
    reveal_strlit("VALUE");
    assert(is_ascii_chars("VALUE"@));
    is_ascii_spec_bytes("VALUE");
    assert(lit("VALUE") =~= seq![0x56u8, 0x41, 0x4c, 0x55, 0x45]);
}

/// The bytes of `END`.
pub proof fn word_end()
    ensures
        lit("END") == seq![0x45u8, 0x4e, 0x44],
{
    reveal_strlit("END");
    assert(is_ascii_chars("END"@));
    is_ascii_spec_bytes("END");
    assert(lit("END") =~= seq![0x45u8, 0x4e, 0x44]);
}

/// The bytes of `STORED`.
pub proof fn word_stored()
    ensures
        lit("STORED") == seq![0x53u8, 0x54, 0x4f, 0x52, 0x45, 0x44],
{
    reveal_strlit("STORED");
    assert(is_ascii_chars("STORED"@));
    is_ascii_spec_bytes("STORED");
    assert(lit("STORED") =~= seq![0x53u8, 0x54, 0x4f, 0x52, 0x45, 0x44]);
}

/// The bytes of `NOT_STORED`.
pub proof fn word_not_stored()
    ensures
        lit("NOT_STORED") == seq![0x4eu8, 0x4f, 0x54, 0x5f, 0x53, 0x54, 0x4f, 0x52, 0x45, 0x44],
{
    reveal_strlit("NOT_STORED");
    assert(is_ascii_chars("NOT_STORED"@));
    is_ascii_spec_bytes("NOT_STORED");
    assert(lit("NOT_STORED") =~= seq![0x4eu8, 0x4f, 0x54, 0x5f, 0x53, 0x54, 0x4f, 0x52, 0x45, 0x44]);
}

/// The bytes of `EXISTS`.
pub proof fn word_exists()
    ensures
        lit("EXISTS") == seq![0x45u8, 0x58, 0x49, 0x53, 0x54, 0x53],
{
    reveal_strlit("EXISTS");
    assert(is_ascii_chars("EXISTS"@));
    is_ascii_spec_bytes("EXISTS");
    assert(lit("EXISTS") =~= seq![0x45u8, 0x58, 0x49, 0x53, 0x54, 0x53]);
}

/// The bytes of `NOT_FOUND`.
pub proof fn word_not_found()
    ensures
        lit("NOT_FOUND") == seq![0x4eu8, 0x4f, 0x54, 0x5f, 0x46, 0x4f, 0x55, 0x4e, 0x44],
{
    reveal_strlit("NOT_FOUND");
    assert(is_ascii_chars("NOT_FOUND"@));
    is_ascii_spec_bytes("NOT_FOUND");
    assert(lit("NOT_FOUND") =~= seq![0x4eu8, 0x4f, 0x54, 0x5f, 0x46, 0x4f, 0x55, 0x4e, 0x44]);
}

/// The bytes of `DELETED`.
pub proof fn word_deleted()
    ensures
        lit("DELETED") == seq![0x44u8, 0x45, 0x4c, 0x45, 0x54, 0x45, 0x44],
{
    reveal_strlit("DELETED");
    assert(is_ascii_chars("DELETED"@));
    is_ascii_spec_bytes("DELETED");
    assert(lit("DELETED") =~= seq![0x44u8, 0x45, 0x4c, 0x45, 0x54, 0x45, 0x44]);
}

/// The bytes of `TOUCHED`.
pub proof fn word_touched()
    ensures
        lit("TOUCHED") == seq![0x54u8, 0x4f, 0x55, 0x43, 0x48, 0x45, 0x44],
{
    reveal_strlit("TOUCHED");
    assert(is_ascii_chars("TOUCHED"@));
    is_ascii_spec_bytes("TOUCHED");
    assert(lit("TOUCHED") =~= seq![0x54u8, 0x4f, 0x55, 0x43, 0x48, 0x45, 0x44]);
}

/// The bytes of `OK`.
pub proof fn word_ok()
    ensures
        lit("OK") == seq![0x4fu8, 0x4b],
{
    reveal_strlit("OK");
    assert(is_ascii_chars("OK"@));
    is_ascii_spec_bytes("OK");
    assert(lit("OK") =~= seq![0x4fu8, 0x4b]);
}

/// The bytes of `ERROR`.
pub proof fn word_error()
    ensures
        lit("ERROR") == seq![0x45u8, 0x52, 0x52, 0x4f, 0x52],
{
    reveal_strlit("ERROR");
    assert(is_ascii_chars("ERROR"@));
    is_ascii_spec_bytes("ERROR");
    assert(lit("ERROR") =~= seq![0x45u8, 0x52, 0x52, 0x4f, 0x52]);
}

/// The bytes of `CLIENT_ERROR`.
pub proof fn word_client_error()
    ensures
        lit("CLIENT_ERROR") == seq![0x43u8, 0x4c, 0x49, 0x45, 0x4e, 0x54, 0x5f, 0x45, 0x52, 0x52, 0x4f, 0x52],
{
    reveal_strlit("CLIENT_ERROR");
    assert(is_ascii_chars("CLIENT_ERROR"@));
    is_ascii_spec_bytes("CLIENT_ERROR");
    assert(lit("CLIENT_ERROR") =~= seq![0x43u8, 0x4c, 0x49, 0x45, 0x4e, 0x54, 0x5f, 0x45, 0x52, 0x52, 0x4f, 0x52]);
}

/// The bytes of `SERVER_ERROR`.
pub proof fn word_server_error()
    ensures
        lit("SERVER_ERROR") == seq![0x53u8, 0x45, 0x52, 0x56, 0x45, 0x52, 0x5f, 0x45, 0x52, 0x52, 0x4f, 0x52],
{
    reveal_strlit("SERVER_ERROR");
    assert(is_ascii_chars("SERVER_ERROR"@));
    is_ascii_spec_bytes("SERVER_ERROR");
    assert(lit("SERVER_ERROR") =~= seq![0x53u8, 0x45, 0x52, 0x56, 0x45, 0x52, 0x5f, 0x45, 0x52, 0x52, 0x4f, 0x52]);
}

/// The bytes of `STAT`.
pub proof fn word_stat()
    ensures
        lit("STAT") == seq![0x53u8, 0x54, 0x41, 0x54],
{
    reveal_strlit("STAT");
    assert(is_ascii_chars("STAT"@));
    is_ascii_spec_bytes("STAT");
    assert(lit("STAT") =~= seq![0x53u8, 0x54, 0x41, 0x54]);
}

/// The bytes of `get`.
pub proof fn word_get()
    ensures
        lit("get") == seq![0x67u8, 0x65, 0x74],
{
    reveal_strlit("get");
    assert(is_ascii_chars("get"@));
    is_ascii_spec_bytes("get");
    assert(lit("get") =~= seq![0x67u8, 0x65, 0x74]);
}

/// The bytes of `delete`.
pub proof fn word_delete()
    ensures
        lit("delete") == seq![0x64u8, 0x65, 0x6c, 0x65, 0x74, 0x65],
{
    reveal_strlit("delete");
    assert(is_ascii_chars("delete"@));
    is_ascii_spec_bytes("delete");
    assert(lit("delete") =~= seq![0x64u8, 0x65, 0x6c, 0x65, 0x74, 0x65]);
}

/// The bytes of `touch`.
pub proof fn word_touch()
    ensures
        lit("touch") == seq![0x74u8, 0x6f, 0x75, 0x63, 0x68],
{
    reveal_strlit("touch");
    assert(is_ascii_chars("touch"@));
    is_ascii_spec_bytes("touch");
    assert(lit("touch") =~= seq![0x74u8, 0x6f, 0x75, 0x63, 0x68]);
}

/// The bytes of `flush_all`.
pub proof fn word_flush_all()
    ensures
        lit("flush_all") == seq![0x66u8, 0x6c, 0x75, 0x73, 0x68, 0x5f, 0x61, 0x6c, 0x6c],
{
    reveal_strlit("flush_all");
    assert(is_ascii_chars("flush_all"@));
    is_ascii_spec_bytes("flush_all");
    assert(lit("flush_all") =~= seq![0x66u8, 0x6c, 0x75, 0x73, 0x68, 0x5f, 0x61, 0x6c, 0x6c]);
}

/// The bytes of `flush_all `.
pub proof fn word_flush_all_()
    ensures
        lit("flush_all ") == seq![0x66u8, 0x6c, 0x75, 0x73, 0x68, 0x5f, 0x61, 0x6c, 0x6c, 0x20],
{
    reveal_strlit("flush_all ");
    assert(is_ascii_chars("flush_all "@));
    is_ascii_spec_bytes("flush_all ");
    assert(lit("flush_all ") =~= seq![0x66u8, 0x6c, 0x75, 0x73, 0x68, 0x5f, 0x61, 0x6c, 0x6c, 0x20]);
}

} // verus!
