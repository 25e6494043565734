//! What holds of every name, and of every command line.

use vstd::prelude::*;
use vstd::string::*;

use crate::cli;
use crate::cli::CommandView;
use crate::paths;
use crate::text;
use crate::text_laws;

verus! {

/// The text names a file in a directory.
pub open spec fn is_name(name: Seq<char>) -> bool {
    name.len() > 0 && !name.contains('/') && name != seq!['.'] && name != seq!['.', '.']
}

/// The name of a path is what stands behind its last slash, or all of it where it has none.
pub proof fn a_name_stands_behind_the_last_slash(directory: Seq<char>, name: Seq<char>)
    requires
        is_name(name),
    ensures
        paths::name_of(name) == name,
        paths::name_of(directory + seq!['/'] + name) == name,
{
    text_laws::text_is_cut_at_stops(directory, name, '/');
}

/// Slashes at the end of a path and components that name the current directory do not count for
/// its name, and a path to the parent directory, or with nothing else in it, has none.
pub proof fn empty_components_do_not_count(path: Seq<char>)
    ensures
        paths::final_component(path + seq!['/']) == paths::final_component(path),
        paths::final_component(path + seq!['/', '.']) == paths::final_component(path),
        paths::final_component(path + seq!['/', '.', '.']) is None,
        paths::final_component(seq![]) is None,
        paths::final_component(seq!['.']) is None,
        paths::final_component(seq!['.', '.']) is None,
        paths::final_component(path) is None ==> paths::name_of(path) == path,
{
    let none = Seq::<char>::empty();
    let dot = seq!['.'];
    let dots = seq!['.', '.'];
    text_laws::text_is_cut_at_stops(path, none, '/');
    text_laws::text_is_cut_at_stops(path, dot, '/');
    text_laws::text_is_cut_at_stops(path, dots, '/');
    assert(path + seq!['/'] + none =~= path + seq!['/']);
    assert(path + seq!['/'] + dot =~= path + seq!['/', '.']);
    assert(path + seq!['/'] + dots =~= path + seq!['/', '.', '.']);
    assert((path + seq!['/']).take(path.len() as int) =~= path);
    assert((path + seq!['/', '.']).take(path.len() as int) =~= path);
    assert(none.len() != dots.len() && dot.len() != dots.len());
    assert(none != dots && dot != dots);
}

/// The suffix of an unfinished download is not shown, and nothing else of its name is left out.
pub proof fn an_unfinished_output_is_shown_as_its_file(directory: Seq<char>, name: Seq<char>)
    requires
        !name.contains('/'),
    ensures
        paths::shown_name(directory + seq!['/'] + (name + seq!['.', 'p', 'a', 'r', 't'])) == name,
        is_name(name) && !text::has_suffix(name, seq!['.', 'p', 'a', 'r', 't'])
            ==> paths::shown_name(directory + seq!['/'] + name) == name,
{
    reveal_strlit(".part");
    let suffix = seq!['.', 'p', 'a', 'r', 't'];
    assert(".part"@ =~= suffix);
    let all = name + suffix;
    if all.contains('/') {
        let i = all.index_of('/');
        if i < name.len() {
            assert(name[i] == '/');
        }
    }
    a_name_stands_behind_the_last_slash(directory, all);
    assert(all.skip(all.len() - suffix.len()) =~= suffix);
    assert(all.take(all.len() - 5) =~= name);
    if is_name(name) {
        a_name_stands_behind_the_last_slash(directory, name);
    }
}

/// What is asked for is what stands behind the last slash of an address, without the query and
/// the fragment behind it.
pub proof fn what_is_asked_for_stands_before_the_query(
    base: Seq<char>,
    name: Seq<char>,
    stop: char,
    tail: Seq<char>,
)
    requires
        !base.contains('#'),
        !base.contains('?'),
        !name.contains('#'),
        !name.contains('?'),
        !name.contains('/'),
        stop == '?' || stop == '#',
    ensures
        paths::requested_name(name) == name,
        paths::requested_name(base + seq!['/'] + name) == name,
        paths::requested_name(base + seq!['/'] + name + seq![stop] + tail) == name,
{
    let address = base + seq!['/'] + name;
    lemma_lacks(base, name, '#');
    lemma_lacks(base, name, '?');
    let none = Seq::<char>::empty();
    text_laws::text_is_cut_at_stops(address, none, '#');
    text_laws::text_is_cut_at_stops(address, none, '?');
    text_laws::text_is_cut_at_stops(base, name, '/');
    text_laws::text_is_cut_at_stops(name, none, '#');
    text_laws::text_is_cut_at_stops(name, none, '?');
    let longer = address + seq![stop] + tail;
    if stop == '#' {
        text_laws::text_is_cut_at_stops(address, tail, '#');
    } else if tail.contains('#') {
        lemma_some_first(tail, tail.index_of('#'), '#');
        let at = choose|first: int|
            0 <= first <= tail.index_of('#') && !tail.take(first).contains('#') && tail[first]
                == '#';
        let query = tail.take(at);
        let rest = tail.skip(at + 1);
        assert(longer =~= (address + seq!['?'] + query) + seq!['#'] + rest);
        lemma_lacks_query(address, query);
        text_laws::text_is_cut_at_stops(address + seq!['?'] + query, rest, '#');
        text_laws::text_is_cut_at_stops(address, query, '?');
    } else {
        lemma_lacks_query(address, tail);
        text_laws::text_is_cut_at_stops(longer, none, '#');
        text_laws::text_is_cut_at_stops(address, tail, '?');
    }
}

/// Some place is the first one.
proof fn lemma_some_first(tail: Seq<char>, at: int, stop: char)
    requires
        0 <= at < tail.len(),
        tail[at] == stop,
    ensures
        exists|first: int|
            0 <= first <= at && !tail.take(first).contains(stop) && tail[first] == stop,
    decreases at,
{
    let before = tail.take(at);
    if before.contains(stop) {
        let i = before.index_of(stop);
        assert(tail[i] == stop);
        lemma_some_first(tail, i, stop);
    }
}

/// An address lacks what its parts lack, the slash aside.
proof fn lemma_lacks(base: Seq<char>, name: Seq<char>, stop: char)
    requires
        !base.contains(stop),
        !name.contains(stop),
        stop != '/',
    ensures
        !(base + seq!['/'] + name).contains(stop),
{
    let all = base + seq!['/'] + name;
    if all.contains(stop) {
        let i = all.index_of(stop);
        if i < base.len() {
            assert(base[i] == stop);
        } else if i > base.len() {
            assert(name[i - base.len() - 1] == stop);
        }
    }
}

/// An address with a query lacks a hash sign that both lack.
proof fn lemma_lacks_query(address: Seq<char>, query: Seq<char>)
    requires
        !address.contains('#'),
        !query.contains('#'),
    ensures
        !(address + seq!['?'] + query).contains('#'),
{
    let all = address + seq!['?'] + query;
    if all.contains('#') {
        let i = all.index_of('#');
        if i < address.len() {
            assert(address[i] == '#');
        } else if i > address.len() {
            assert(query[i - address.len() - 1] == '#');
        }
    }
}

/// The download of a database signature is one in which such a signature is asked for and an
/// unfinished one is written, and no other.
pub proof fn a_signature_is_told_by_both_names(
    url: Seq<char>,
    output: Seq<char>,
    requested: Seq<char>,
    written: Seq<char>,
)
    ensures
        paths::requested_name(url) == requested + ".db.sig"@ && paths::name_of(output) == written
            + ".db.sig.part"@ ==> paths::signature_download(url, output),
        paths::signature_download(url, output) ==> exists|left: Seq<char>, right: Seq<char>|
            paths::requested_name(url) == #[trigger] (left + ".db.sig"@) && paths::name_of(output)
                == #[trigger] (right + ".db.sig.part"@),
{
    text_laws::prefixes_and_suffixes_make_up_text(paths::requested_name(url), ".db.sig"@);
    text_laws::prefixes_and_suffixes_make_up_text(paths::name_of(output), ".db.sig.part"@);
}

/// The resume state and the lock of an output stand beside it, under its name and a suffix.
pub proof fn what_belongs_to_an_output_stands_beside_it(
    output: &str,
    sidecar: String,
    locked: String,
)
    requires
        call_ensures(paths::sidecar_path, (output,), sidecar),
        call_ensures(paths::lock_path, (output,), locked),
    ensures
        sidecar@ == output@ + ".bytehaul"@,
        locked@ == output@ + ".rustypac.lock"@,
{
}

/// Two arguments of which the first is no option, and the second is none that the program knows,
/// ask for the download of the first to the second, just as they stand.
pub proof fn an_address_and_an_output_ask_for_a_download(args: Seq<Seq<char>>)
    requires
        args.len() == 3,
        args[1].len() < 2 || args[1][0] != '-' || args[1][1] != '-',
        args[2] != "--enable"@,
        args[2] != "--disable"@,
    ensures
        cli::parsed(args) == Some(CommandView::Download { url: args[1], output: args[2] }),
{
    reveal_strlit("--");
    if text::has_prefix(args[1], "--"@) {
        assert(args[1].take(2)[0] == "--"@[0] && args[1].take(2)[1] == "--"@[1]);
    }
}

/// The program is enabled and disabled by its one option alone, and the name under which it was
/// started does not count. Nothing else is asked for by fewer or more arguments, by another
/// option, or by an option beside an output or an address.
pub proof fn nothing_else_is_asked_for(args: Seq<Seq<char>>)
    ensures
        cli::parsed(args) == Some(CommandView::Enable) <==> args.len() == 2 && args[1]
            == "--enable"@,
        cli::parsed(args) == Some(CommandView::Disable) <==> args.len() == 2 && args[1]
            == "--disable"@,
        args.len() < 2 || args.len() > 3 ==> cli::parsed(args) is None,
        args.len() == 3 && args[1].len() >= 2 && args[1][0] == '-' && args[1][1] == '-'
            ==> cli::parsed(args) is None,
        args.len() == 3 && (args[2] == "--enable"@ || args[2] == "--disable"@) ==> cli::parsed(
            args,
        ) is None,
        cli::parsed(args) matches Some(CommandView::Download { url, output }) ==> args.len() == 3
            && url == args[1] && output == args[2],
{
    reveal_strlit("--");
    reveal_strlit("--enable");
    reveal_strlit("--disable");
    assert("--enable"@ != "--disable"@) by {
        assert("--enable"@.len() != "--disable"@.len());
    }
    if args.len() == 3 && args[1].len() >= 2 && args[1][0] == '-' && args[1][1] == '-' {
        assert(args[1].take(2) =~= "--"@);
    }
}

} // verus!
