//! The lines that every MCC file begins with.
use vstd::prelude::*;

verus! {

/// The beginning of a file in version 1.0 of the format, line by line.
pub const PREAMBLE_V1: [&'static str; 38] = [
    "File Format=MacCaption_MCC V1.0\r\n",
    "\r\n",
    "///////////////////////////////////////////////////////////////////////////////////\r\n",
    "// Computer Prompting and Captioning Company\r\n",
    "// Ancillary Data Packet Transfer File\r\n",
    "//\r\n",
    "// Permission to generate this format is granted provided that\r\n",
    "//   1. This ANC Transfer file format is used on an as-is basis and no warranty is given, and\r\n",
    "//   2. This entire descriptive information text is included in a generated .mcc file.\r\n",
    "//\r\n",
    "// General file format:\r\n",
    "//   HH:MM:SS:FF(tab)[Hexadecimal ANC data in groups of 2 characters]\r\n",
    "//     Hexadecimal data starts with the Ancillary Data Packet DID (Data ID defined in S291M)\r\n",
    "//       and concludes with the Check Sum following the User Data Words.\r\n",
    "//     Each time code line must contain at most one complete ancillary data packet.\r\n",
    "//     To transfer additional ANC Data successive lines may contain identical time code.\r\n",
    "//     Time Code Rate=[24, 25, 30, 30DF, 50, 60]\r\n",
    "//\r\n",
    "//   ANC data bytes may be represented by one ASCII character according to the following schema:\r\n",
    "//     G  FAh 00h 00h\r\n",
    "//     H  2 x (FAh 00h 00h)\r\n",
    "//     I  3 x (FAh 00h 00h)\r\n",
    "//     J  4 x (FAh 00h 00h)\r\n",
    "//     K  5 x (FAh 00h 00h)\r\n",
    "//     L  6 x (FAh 00h 00h)\r\n",
    "//     M  7 x (FAh 00h 00h)\r\n",
    "//     N  8 x (FAh 00h 00h)\r\n",
    "//     O  9 x (FAh 00h 00h)\r\n",
    "//     P  FBh 80h 80h\r\n",
    "//     Q  FCh 80h 80h\r\n",
    "//     R  FDh 80h 80h\r\n",
    "//     S  96h 69h\r\n",
    "//     T  61h 01h\r\n",
    "//     U  E1h 00h 00h 00h\r\n",
    "//     Z  00h\r\n",
    "//\r\n",
    "///////////////////////////////////////////////////////////////////////////////////\r\n",
    "\r\n",
];

/// The beginning of a file in version 2.0 of the format, line by line.
pub const PREAMBLE_V2: [&'static str; 39] = [
    "File Format=MacCaption_MCC V2.0\r\n",
    "\r\n",
    "///////////////////////////////////////////////////////////////////////////////////\r\n",
    "// Computer Prompting and Captioning Company\r\n",
    "// Ancillary Data Packet Transfer File\r\n",
    "//\r\n",
    "// Permission to generate this format is granted provided that\r\n",
    "//   1. This ANC Transfer file format is used on an as-is basis and no warranty is given, and\r\n",
    "//   2. This entire descriptive information text is included in a generated .mcc file.\r\n",
    "//\r\n",
    "// General file format:\r\n",
    "//   HH:MM:SS:FF(tab)[Hexadecimal ANC data in groups of 2 characters]\r\n",
    "//     Hexadecimal data starts with the Ancillary Data Packet DID (Data ID defined in S291M)\r\n",
    "//       and concludes with the Check Sum following the User Data Words.\r\n",
    "//     Each time code line must contain at most one complete ancillary data packet.\r\n",
    "//     To transfer additional ANC Data successive lines may contain identical time code.\r\n",
    "//     Time Code Rate=[24, 25, 30, 30DF, 50, 60, 60DF]\r\n",
    "//     Time Code Rate=[24, 25, 30, 30DF, 50, 60]\r\n",
    "//\r\n",
    "//   ANC data bytes may be represented by one ASCII character according to the following schema:\r\n",
    "//     G  FAh 00h 00h\r\n",
    "//     H  2 x (FAh 00h 00h)\r\n",
    "//     I  3 x (FAh 00h 00h)\r\n",
    "//     J  4 x (FAh 00h 00h)\r\n",
    "//     K  5 x (FAh 00h 00h)\r\n",
    "//     L  6 x (FAh 00h 00h)\r\n",
    "//     M  7 x (FAh 00h 00h)\r\n",
    "//     N  8 x (FAh 00h 00h)\r\n",
    "//     O  9 x (FAh 00h 00h)\r\n",
    "//     P  FBh 80h 80h\r\n",
    "//     Q  FCh 80h 80h\r\n",
    "//     R  FDh 80h 80h\r\n",
    "//     S  96h 69h\r\n",
    "//     T  61h 01h\r\n",
    "//     U  E1h 00h 00h 00h\r\n",
    "//     Z  00h\r\n",
    "//\r\n",
    "///////////////////////////////////////////////////////////////////////////////////\r\n",
    "\r\n",
];

/// Whether a text is one line: printable characters with `\r\n` behind them.
pub open spec fn is_line_text(t: Seq<char>) -> bool {
    &&& t.len() >= 2
    &&& t[t.len() - 2] == '\r'
    &&& t[t.len() - 1] == '\n'
    &&& forall|i: int|
        0 <= i < t.len() - 2 ==> ' ' <= #[trigger] t[i] <= '~'
}

/// Whether a text is a line with a comment.
pub open spec fn is_comment_text(t: Seq<char>) -> bool {
    &&& is_line_text(t)
    &&& t.len() >= 4
    &&& t[0] == '/'
    &&& t[1] == '/'
}

proof fn lemma_comments_1()
    ensures
        is_comment_text(PREAMBLE_V1@[2]@),
        is_comment_text(PREAMBLE_V1@[36]@),
        is_comment_text(PREAMBLE_V2@[2]@),
        is_comment_text(PREAMBLE_V2@[37]@),
        is_comment_text(PREAMBLE_V1@[3]@),
        is_comment_text(PREAMBLE_V2@[3]@),
        is_comment_text(PREAMBLE_V1@[4]@),
        is_comment_text(PREAMBLE_V2@[4]@),
        is_comment_text(PREAMBLE_V1@[5]@),
        is_comment_text(PREAMBLE_V1@[9]@),
        is_comment_text(PREAMBLE_V1@[17]@),
        is_comment_text(PREAMBLE_V1@[35]@),
        is_comment_text(PREAMBLE_V2@[5]@),
        is_comment_text(PREAMBLE_V2@[9]@),
        is_comment_text(PREAMBLE_V2@[18]@),
        is_comment_text(PREAMBLE_V2@[36]@),
        is_comment_text(PREAMBLE_V1@[6]@),
        is_comment_text(PREAMBLE_V2@[6]@),
{
    reveal_strlit("///////////////////////////////////////////////////////////////////////////////////\r\n");
    reveal_strlit("// Computer Prompting and Captioning Company\r\n");
    reveal_strlit("// Ancillary Data Packet Transfer File\r\n");
    reveal_strlit("//\r\n");
    reveal_strlit("// Permission to generate this format is granted provided that\r\n");
}

proof fn lemma_comments_2()
    ensures
        is_comment_text(PREAMBLE_V1@[7]@),
        is_comment_text(PREAMBLE_V2@[7]@),
        is_comment_text(PREAMBLE_V1@[8]@),
        is_comment_text(PREAMBLE_V2@[8]@),
        is_comment_text(PREAMBLE_V1@[10]@),
        is_comment_text(PREAMBLE_V2@[10]@),
        is_comment_text(PREAMBLE_V1@[11]@),
        is_comment_text(PREAMBLE_V2@[11]@),
        is_comment_text(PREAMBLE_V1@[12]@),
        is_comment_text(PREAMBLE_V2@[12]@),
{
    reveal_strlit("//   1. This ANC Transfer file format is used on an as-is basis and no warranty is given, and\r\n");
    reveal_strlit("//   2. This entire descriptive information text is included in a generated .mcc file.\r\n");
    reveal_strlit("// General file format:\r\n");
    reveal_strlit("//   HH:MM:SS:FF(tab)[Hexadecimal ANC data in groups of 2 characters]\r\n");
    reveal_strlit("//     Hexadecimal data starts with the Ancillary Data Packet DID (Data ID defined in S291M)\r\n");
}

proof fn lemma_comments_3()
    ensures
        is_comment_text(PREAMBLE_V1@[13]@),
        is_comment_text(PREAMBLE_V2@[13]@),
        is_comment_text(PREAMBLE_V1@[14]@),
        is_comment_text(PREAMBLE_V2@[14]@),
        is_comment_text(PREAMBLE_V1@[15]@),
        is_comment_text(PREAMBLE_V2@[15]@),
        is_comment_text(PREAMBLE_V1@[16]@),
        is_comment_text(PREAMBLE_V2@[17]@),
        is_comment_text(PREAMBLE_V1@[18]@),
        is_comment_text(PREAMBLE_V2@[19]@),
{
    reveal_strlit("//       and concludes with the Check Sum following the User Data Words.\r\n");
    reveal_strlit("//     Each time code line must contain at most one complete ancillary data packet.\r\n");
    reveal_strlit("//     To transfer additional ANC Data successive lines may contain identical time code.\r\n");
    reveal_strlit("//     Time Code Rate=[24, 25, 30, 30DF, 50, 60]\r\n");
    reveal_strlit("//   ANC data bytes may be represented by one ASCII character according to the following schema:\r\n");
}

proof fn lemma_comments_4()
    ensures
        is_comment_text(PREAMBLE_V1@[19]@),
        is_comment_text(PREAMBLE_V2@[20]@),
        is_comment_text(PREAMBLE_V1@[20]@),
        is_comment_text(PREAMBLE_V2@[21]@),
        is_comment_text(PREAMBLE_V1@[21]@),
        is_comment_text(PREAMBLE_V2@[22]@),
        is_comment_text(PREAMBLE_V1@[22]@),
        is_comment_text(PREAMBLE_V2@[23]@),
        is_comment_text(PREAMBLE_V1@[23]@),
        is_comment_text(PREAMBLE_V2@[24]@),
{
    reveal_strlit("//     G  FAh 00h 00h\r\n");
    reveal_strlit("//     H  2 x (FAh 00h 00h)\r\n");
    reveal_strlit("//     I  3 x (FAh 00h 00h)\r\n");
    reveal_strlit("//     J  4 x (FAh 00h 00h)\r\n");
    reveal_strlit("//     K  5 x (FAh 00h 00h)\r\n");
}

proof fn lemma_comments_5()
    ensures
        is_comment_text(PREAMBLE_V1@[24]@),
        is_comment_text(PREAMBLE_V2@[25]@),
        is_comment_text(PREAMBLE_V1@[25]@),
        is_comment_text(PREAMBLE_V2@[26]@),
        is_comment_text(PREAMBLE_V1@[26]@),
        is_comment_text(PREAMBLE_V2@[27]@),
        is_comment_text(PREAMBLE_V1@[27]@),
        is_comment_text(PREAMBLE_V2@[28]@),
        is_comment_text(PREAMBLE_V1@[28]@),
        is_comment_text(PREAMBLE_V2@[29]@),
{
    reveal_strlit("//     L  6 x (FAh 00h 00h)\r\n");
    reveal_strlit("//     M  7 x (FAh 00h 00h)\r\n");
    reveal_strlit("//     N  8 x (FAh 00h 00h)\r\n");
    reveal_strlit("//     O  9 x (FAh 00h 00h)\r\n");
    reveal_strlit("//     P  FBh 80h 80h\r\n");
}

proof fn lemma_comments_6()
    ensures
        is_comment_text(PREAMBLE_V1@[29]@),
        is_comment_text(PREAMBLE_V2@[30]@),
        is_comment_text(PREAMBLE_V1@[30]@),
        is_comment_text(PREAMBLE_V2@[31]@),
        is_comment_text(PREAMBLE_V1@[31]@),
        is_comment_text(PREAMBLE_V2@[32]@),
        is_comment_text(PREAMBLE_V1@[32]@),
        is_comment_text(PREAMBLE_V2@[33]@),
        is_comment_text(PREAMBLE_V1@[33]@),
        is_comment_text(PREAMBLE_V2@[34]@),
{
    reveal_strlit("//     Q  FCh 80h 80h\r\n");
    reveal_strlit("//     R  FDh 80h 80h\r\n");
    reveal_strlit("//     S  96h 69h\r\n");
    reveal_strlit("//     T  61h 01h\r\n");
    reveal_strlit("//     U  E1h 00h 00h 00h\r\n");
}

proof fn lemma_comments_7()
    ensures
        is_comment_text(PREAMBLE_V1@[34]@),
        is_comment_text(PREAMBLE_V2@[35]@),
        is_comment_text(PREAMBLE_V2@[16]@),
{
    reveal_strlit("//     Z  00h\r\n");
    reveal_strlit("//     Time Code Rate=[24, 25, 30, 30DF, 50, 60, 60DF]\r\n");
}

/// All lines but the first two and the last are comments.
pub proof fn lemma_comments()
    ensures
        forall|i: int| 2 <= i < 37 ==> is_comment_text((#[trigger] PREAMBLE_V1@[i])@),
        forall|i: int| 2 <= i < 38 ==> is_comment_text((#[trigger] PREAMBLE_V2@[i])@),
{
    lemma_comments_1();
    lemma_comments_2();
    lemma_comments_3();
    lemma_comments_4();
    lemma_comments_5();
    lemma_comments_6();
    lemma_comments_7();
}

/// The first line names the format, and the second and the last one are empty.
pub proof fn lemma_first_lines()
    ensures
        PREAMBLE_V1@[0]@ == "File Format=MacCaption_MCC V1.0\r\n"@,
        PREAMBLE_V2@[0]@ == "File Format=MacCaption_MCC V2.0\r\n"@,
        PREAMBLE_V1@[1]@ == "\r\n"@,
        PREAMBLE_V2@[1]@ == "\r\n"@,
        PREAMBLE_V1@[37]@ == "\r\n"@,
        PREAMBLE_V2@[38]@ == "\r\n"@,
{
}

} // verus!
