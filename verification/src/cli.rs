//! The command line: its commands, how a room identifier typed in a shell
//! is read, the tables it prints, and the request it sends to download an
//! offer.
use crate::events::FileRequestContent;
use crate::matrix_client::{copy_opt, opt_view};
use crate::state::{format_bytes, size_text, FileOfferData, RoomSummary};
use crate::text::{
    chars_of, decimal, decimal_string, has_prefix, owned, pad_right, push_char, push_padded,
    push_text,
};
use vstd::prelude::*;

verus! {

/// The command line of the tool.
pub struct Cli {
    pub command: Commands,
}

/// What the tool is asked to do.
pub enum Commands {
    /// Log in to a homeserver.
    Login { homeserver: String, username: String, password: String },
    /// List the joined rooms.
    Rooms { homeserver: String, username: String, password: String },
    /// List the file offers of a room.
    Offers { homeserver: String, username: String, password: String, room_id: String },
    /// Offer a file to a room and serve it.
    Share {
        homeserver: String,
        username: String,
        password: String,
        room_id: String,
        file_path: String,
        description: Option<String>,
    },
    /// Download an offered file.
    Download {
        homeserver: String,
        username: String,
        password: String,
        room_id: String,
        offer_id: String,
        save_dir: String,
    },
    /// Serve a file directly, peer to peer.
    IrohServe { file_path: String },
    /// Download a file directly, peer to peer.
    IrohGet { ticket: String, save_path: String },
}

/// A room identifier as typed: a shell-escaped `\!` becomes `!`, and a
/// missing leading `!` is added.
pub open spec fn fixed_room_id(id: Seq<char>) -> Seq<char> {
    let unescaped = if has_prefix(id, seq!['\\', '!']) {
        seq!['!'] + id.skip(2)
    } else {
        id
    };
    if has_prefix(unescaped, seq!['!']) {
        unescaped
    } else {
        seq!['!'] + unescaped
    }
}

/// Reads a room identifier typed in a shell.
pub fn fix_room_id(id: &str) -> (r: String)
    ensures
        r@ == fixed_room_id(id@),
{
    let cs = chars_of(id);
    let n = cs.len();
    let mut out = String::new();
    push_char(&mut out, '!');
    if n >= 2 && cs[0] == '\\' && cs[1] == '!' {
        let mut i: usize = 2;
        while i < n
            invariant
                2 <= i <= n,
                n == id@.len(),
                cs@ == id@,
                out@ == seq!['!'] + id@.subrange(2, i as int),
            decreases n - i,
        {
            push_char(&mut out, cs[i]);
            i = i + 1;
            assert(id@.subrange(2, i as int) == id@.subrange(2, i - 1).push(id@[i - 1]));
        }
        assert(id@.subrange(0, 2) == seq!['\\', '!']);
        assert(id@.subrange(2, n as int) == id@.skip(2));
        assert(has_prefix(id@, seq!['\\', '!']));
        assert((seq!['!'] + id@.skip(2)).subrange(0, 1) == seq!['!']);
        assert(out@ == fixed_room_id(id@));
        out
    } else if n >= 1 && cs[0] == '!' {
        proof {
            assert(!has_prefix(id@, seq!['\\', '!']));
            assert(id@.subrange(0, 1) == seq!['!']);
        }
        owned(id)
    } else {
        proof {
            if has_prefix(id@, seq!['\\', '!']) {
                assert(id@[0] == seq!['\\', '!'][0]);
                assert(id@[1] == seq!['\\', '!'][1]);
            }
            if has_prefix(id@, seq!['!']) {
                assert(id@[0] == seq!['!'][0]);
            }
        }
        push_text(&mut out, id);
        out
    }
}

impl Commands {
    /// The command with its room identifier, if it has one, read as typed
    /// in a shell (`fix_room_id`); every other field is kept.
    pub fn with_fixed_room_id(self) -> (r: Commands)
        ensures
            match (self, r) {
                (
                    Commands::Offers { homeserver: h, username: u, password: p, room_id: i },
                    Commands::Offers { homeserver: h2, username: u2, password: p2, room_id: i2 },
                ) => h2 == h && u2 == u && p2 == p && i2@ == fixed_room_id(i@),
                (
                    Commands::Share {
                        homeserver: h,
                        username: u,
                        password: p,
                        room_id: i,
                        file_path: f,
                        description: d,
                    },
                    Commands::Share {
                        homeserver: h2,
                        username: u2,
                        password: p2,
                        room_id: i2,
                        file_path: f2,
                        description: d2,
                    },
                ) => h2 == h && u2 == u && p2 == p && i2@ == fixed_room_id(i@) && f2 == f && d2
                    == d,
                (
                    Commands::Download {
                        homeserver: h,
                        username: u,
                        password: p,
                        room_id: i,
                        offer_id: o,
                        save_dir: s,
                    },
                    Commands::Download {
                        homeserver: h2,
                        username: u2,
                        password: p2,
                        room_id: i2,
                        offer_id: o2,
                        save_dir: s2,
                    },
                ) => h2 == h && u2 == u && p2 == p && i2@ == fixed_room_id(i@) && o2 == o && s2
                    == s,
                (Commands::Offers { .. }, _) => false,
                (Commands::Share { .. }, _) => false,
                (Commands::Download { .. }, _) => false,
                (a, b) => a == b,
            },
    {
        match self {
            Commands::Offers { homeserver, username, password, room_id } => Commands::Offers {
                homeserver,
                username,
                password,
                room_id: fix_room_id(room_id.as_str()),
            },
            Commands::Share { homeserver, username, password, room_id, file_path, description } =>
            Commands::Share {
                homeserver,
                username,
                password,
                room_id: fix_room_id(room_id.as_str()),
                file_path,
                description,
            },
            Commands::Download { homeserver, username, password, room_id, offer_id, save_dir } =>
            Commands::Download {
                homeserver,
                username,
                password,
                room_id: fix_room_id(room_id.as_str()),
                offer_id,
                save_dir,
            },
            other => other,
        }
    }
}

/// `n` dashes.
pub open spec fn rule(n: nat) -> Seq<char> {
    Seq::new(n, |i: int| '-')
}

/// A line of `n` dashes.
fn rule_line(n: usize) -> (r: String)
    ensures
        r@ == rule(n as nat),
{
    let mut out = String::new();
    let mut i: usize = 0;
    while i < n
        invariant
            i <= n,
            out@ == rule(i as nat),
        decreases n - i,
    {
        push_char(&mut out, '-');
        i = i + 1;
        assert(out@ == rule(i as nat));
    }
    out
}

/// The views of the lines `lines`.
pub open spec fn line_views(lines: Seq<String>) -> Seq<Seq<char>> {
    lines.map_values(|l: String| l@)
}

/// The line listing one room.
pub open spec fn room_row(room: RoomSummary) -> Seq<char> {
    pad_right(room.room_id@, 50) + " "@ + pad_right(decimal(room.member_count as nat), 10) + " "@
        + room.name@
}

/// The table of rooms the `rooms` command prints.
pub open spec fn room_table(rooms: Seq<RoomSummary>) -> Seq<Seq<char>> {
    if rooms.len() == 0 {
        seq!["No rooms found."@]
    } else {
        seq![
            pad_right("ROOM ID"@, 50) + " "@ + pad_right("MEMBERS"@, 10) + " "@ + "NAME"@,
            rule(80),
        ] + rooms.map_values(|r: RoomSummary| room_row(r))
    }
}

/// The rooms table: with no room, one line saying so; otherwise a header,
/// a rule, and one row per room, in order, whose columns are the room's
/// identifier padded to 50, its member count padded to 10, and its name,
/// one space between columns.
pub proof fn lemma_room_table_columns(rooms: Seq<RoomSummary>)
    ensures
        rooms.len() == 0 ==> room_table(rooms) == seq!["No rooms found."@],
        rooms.len() > 0 ==> room_table(rooms).len() == rooms.len() + 2,
        rooms.len() > 0 ==> room_table(rooms)[0] == pad_right("ROOM ID"@, 50) + " "@ + pad_right(
            "MEMBERS"@,
            10,
        ) + " "@ + "NAME"@,
        forall|k: int|
            0 <= k < rooms.len() ==> room_table(rooms)[k + 2] == pad_right(
                (#[trigger] rooms[k]).room_id@,
                50,
            ) + " "@ + pad_right(decimal(rooms[k].member_count as nat), 10) + " "@ + rooms[k].name@,
{
}

/// The lines the `rooms` command prints for `rooms`.
pub fn room_lines(rooms: &[RoomSummary]) -> (r: Vec<String>)
    ensures
        line_views(r@) == room_table(rooms@),
{
    let mut lines: Vec<String> = Vec::new();
    if rooms.len() == 0 {
        lines.push(owned("No rooms found."));
        assert(line_views(lines@) == room_table(rooms@));
        return lines;
    }
    let mut header = String::new();
    push_padded(&mut header, "ROOM ID", 50);
    push_text(&mut header, " ");
    push_padded(&mut header, "MEMBERS", 10);
    push_text(&mut header, " ");
    push_text(&mut header, "NAME");
    lines.push(header);
    lines.push(rule_line(80));
    let n = rooms.len();
    for i in 0..n
        invariant
            n == rooms@.len(),
            n > 0,
            line_views(lines@) == room_table(rooms@).take(i + 2),
    {
        let room = &rooms[i];
        let mut row = String::new();
        push_padded(&mut row, room.room_id.as_str(), 50);
        push_text(&mut row, " ");
        let count = decimal_string(room.member_count);
        push_padded(&mut row, count.as_str(), 10);
        push_text(&mut row, " ");
        push_text(&mut row, room.name.as_str());
        let ghost row_view = row@;
        let ghost before = lines@;
        lines.push(row);
        assert(line_views(lines@) =~= line_views(before).push(row_view));
        assert(room_table(rooms@).take(i + 3) =~= room_table(rooms@).take(i + 2).push(
            room_row(rooms@[i as int]),
        ));
    }
    assert(room_table(rooms@).take(n + 2) == room_table(rooms@));
    lines
}

/// The line listing one offer.
pub open spec fn offer_row(offer: FileOfferData) -> Seq<char> {
    pad_right(offer.offer_id@, 38) + " "@ + pad_right(offer.filename@, 30) + " "@ + pad_right(
        size_text(offer.size as nat),
        12,
    ) + " "@ + pad_right(
        if offer.iroh_ticket is Some {
            "yes"@
        } else {
            "no"@
        },
        6,
    ) + " "@ + offer.sender_user_id@
}

/// The table of offers the `offers` command prints.
pub open spec fn offer_table(offers: Seq<FileOfferData>) -> Seq<Seq<char>> {
    if offers.len() == 0 {
        seq!["No file offers in this room."@]
    } else {
        seq![
            pad_right("OFFER ID"@, 38) + " "@ + pad_right("FILENAME"@, 30) + " "@ + pad_right(
                "SIZE"@,
                12,
            ) + " "@ + pad_right("IROH"@, 6) + " "@ + "SENDER"@,
            rule(110),
        ] + offers.map_values(|o: FileOfferData| offer_row(o))
    }
}

/// The offers table: with no offer, one line saying so; otherwise a
/// header, a rule, and one row per offer, in order, whose columns are the
/// offer's identifier padded to 38, its file name padded to 30, its size
/// in readable units padded to 12, whether it carries a ticket padded to
/// 6, and its sender, one space between columns.
pub proof fn lemma_offer_table_columns(offers: Seq<FileOfferData>)
    ensures
        offers.len() == 0 ==> offer_table(offers) == seq!["No file offers in this room."@],
        offers.len() > 0 ==> offer_table(offers).len() == offers.len() + 2,
        offers.len() > 0 ==> offer_table(offers)[0] == pad_right("OFFER ID"@, 38) + " "@
            + pad_right("FILENAME"@, 30) + " "@ + pad_right("SIZE"@, 12) + " "@ + pad_right(
            "IROH"@,
            6,
        ) + " "@ + "SENDER"@,
        forall|k: int|
            0 <= k < offers.len() ==> offer_table(offers)[k + 2] == pad_right(
                (#[trigger] offers[k]).offer_id@,
                38,
            ) + " "@ + pad_right(offers[k].filename@, 30) + " "@ + pad_right(
                size_text(offers[k].size as nat),
                12,
            ) + " "@ + pad_right(
                if offers[k].iroh_ticket is Some {
                    "yes"@
                } else {
                    "no"@
                },
                6,
            ) + " "@ + offers[k].sender_user_id@,
{
}

/// The lines the `offers` command prints for `offers`.
pub fn offer_lines(offers: &[FileOfferData]) -> (r: Vec<String>)
    ensures
        line_views(r@) == offer_table(offers@),
{
    let mut lines: Vec<String> = Vec::new();
    if offers.len() == 0 {
        lines.push(owned("No file offers in this room."));
        assert(line_views(lines@) == offer_table(offers@));
        return lines;
    }
    let mut header = String::new();
    push_padded(&mut header, "OFFER ID", 38);
    push_text(&mut header, " ");
    push_padded(&mut header, "FILENAME", 30);
    push_text(&mut header, " ");
    push_padded(&mut header, "SIZE", 12);
    push_text(&mut header, " ");
    push_padded(&mut header, "IROH", 6);
    push_text(&mut header, " ");
    push_text(&mut header, "SENDER");
    lines.push(header);
    lines.push(rule_line(110));
    let n = offers.len();
    for i in 0..n
        invariant
            n == offers@.len(),
            n > 0,
            line_views(lines@) == offer_table(offers@).take(i + 2),
    {
        let offer = &offers[i];
        let mut row = String::new();
        push_padded(&mut row, offer.offer_id.as_str(), 38);
        push_text(&mut row, " ");
        push_padded(&mut row, offer.filename.as_str(), 30);
        push_text(&mut row, " ");
        let size = format_bytes(offer.size);
        push_padded(&mut row, size.as_str(), 12);
        push_text(&mut row, " ");
        let has_iroh = if offer.iroh_ticket.is_some() {
            "yes"
        } else {
            "no"
        };
        push_padded(&mut row, has_iroh, 6);
        push_text(&mut row, " ");
        push_text(&mut row, offer.sender_user_id.as_str());
        let ghost row_view = row@;
        let ghost before = lines@;
        lines.push(row);
        assert(line_views(lines@) =~= line_views(before).push(row_view));
        assert(offer_table(offers@).take(i + 3) =~= offer_table(offers@).take(i + 2).push(
            offer_row(offers@[i as int]),
        ));
    }
    assert(offer_table(offers@).take(n + 2) == offer_table(offers@));
    lines
}

/// The request to download `offer` to the device `our_device`: sent to
/// the offering user's device, or to all of them (`*`) where the offer
/// names none.
pub fn download_request(offer: &FileOfferData, our_device: String) -> (r: FileRequestContent)
    ensures
        r.offer_id@ == offer.offer_id@,
        r.target_user@ == offer.sender_user_id@,
        r.target_device@ == match offer.sender_device_id {
            Some(d) => d@,
            None => "*"@,
        },
        r.requester_device_id@ == our_device@,
{
    let target_device = match &offer.sender_device_id {
        Some(d) => owned(d.as_str()),
        None => owned("*"),
    };
    FileRequestContent {
        offer_id: owned(offer.offer_id.as_str()),
        target_user: owned(offer.sender_user_id.as_str()),
        target_device,
        requester_device_id: our_device,
    }
}

/// The ticket to try a direct download with: the one given, else the
/// offer's.
pub fn choose_ticket(given: Option<String>, offer: &FileOfferData) -> (r: Option<String>)
    ensures
        opt_view(r) == match given {
            Some(t) => Some(t@),
            None => opt_view(offer.iroh_ticket),
        },
{
    match given {
        Some(t) => Some(t),
        None => copy_opt(&offer.iroh_ticket),
    }
}

} // verus!

verus! {

/// A room identifier as typed always comes out starting with `!`: a
/// shell-escaped `\!` loses its backslash, one that starts with `!` is kept
/// as it is, and any other gets a `!` in front.
pub proof fn lemma_fixed_room_id_cases(id: Seq<char>)
    ensures
        fixed_room_id(id).len() > 0,
        fixed_room_id(id)[0] == '!',
        id.len() >= 2 && id[0] == '\\' && id[1] == '!' ==> fixed_room_id(id) == seq!['!'] + id.skip(
            2,
        ),
        id.len() >= 1 && id[0] == '!' ==> fixed_room_id(id) == id,
        !(id.len() >= 2 && id[0] == '\\' && id[1] == '!') && !(id.len() >= 1 && id[0] == '!')
            ==> fixed_room_id(id) == seq!['!'] + id,
{
    if id.len() >= 2 && id[0] == '\\' && id[1] == '!' {
        assert(id.subrange(0, 2) =~= seq!['\\', '!']);
        assert((seq!['!'] + id.skip(2)).subrange(0, 1) =~= seq!['!']);
    } else if id.len() >= 1 && id[0] == '!' {
        assert(id.subrange(0, 1) =~= seq!['!']);
        if id.len() >= 2 {
            assert(id.subrange(0, 2)[0] == '!');
        }
    } else {
        if id.len() >= 2 && has_prefix(id, seq!['\\', '!']) {
            assert(id.subrange(0, 2)[0] == id[0]);
            assert(id.subrange(0, 2)[1] == id[1]);
        }
        if has_prefix(id, seq!['!']) {
            assert(id.subrange(0, 1)[0] == id[0]);
        }
        assert((seq!['!'] + id).subrange(0, 1) =~= seq!['!']);
    }
}

/// Reading a room identifier twice changes nothing more.
pub proof fn lemma_fix_room_id_idempotent(id: Seq<char>)
    ensures
        fixed_room_id(fixed_room_id(id)) == fixed_room_id(id),
{
    let f = fixed_room_id(id);
    let unescaped = if has_prefix(id, seq!['\\', '!']) {
        seq!['!'] + id.skip(2)
    } else {
        id
    };
    if has_prefix(unescaped, seq!['!']) {
        assert(f == unescaped);
    } else {
        assert(f == seq!['!'] + unescaped);
        assert(f.subrange(0, 1) =~= seq!['!']);
    }
    assert(f[0] == '!') by {
        assert(f.subrange(0, 1)[0] == seq!['!'][0]);
    }
    assert(!has_prefix(f, seq!['\\', '!'])) by {
        if has_prefix(f, seq!['\\', '!']) {
            assert(f.subrange(0, 2)[0] == seq!['\\', '!'][0]);
        }
    }
    assert(has_prefix(f, seq!['!'])) by {
        assert(f.subrange(0, 1) =~= seq!['!']);
    }
}

} // verus!
