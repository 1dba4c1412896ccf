//! What holds of the settings that the program starts with, and of the plugins that it finds.
use vstd::prelude::*;

use crate::number::{decimal, is_digit, lemma_decimal_round_trip};
use crate::paths::components;
use crate::protocol::PluginManifest;
use crate::startup::{
    admission, candidates, each_once, languages_fit, listed, one_listed, same_path_in, seen_after,
    servers_fit, timeout_setting, trimmed, truthy, unicode_of, user_plugins, verbosity_of,
};
use crate::text::{is_space, lemma_find_char, lower, split, texts, trim};
use crate::text_laws::{
    all_space, law_numbers, law_space_around_does_not_count, law_trim_of_blank, lemma_split_sum,
};

verus! {

// ---- Settings ------------------------------------------------------------------

/// A switch is on where it reads `1`, `true`, `yes` or `on`, in any case and with any white
/// space around it; it is off where it reads anything else, where it is blank and where it is
/// not set.
pub proof fn law_switches(before: Seq<char>, word: Seq<char>, after: Seq<char>)
    requires
        all_space(before),
        all_space(after),
        word.len() > 0,
        !is_space(word[0]),
        !is_space(word.last()),
    ensures
        truthy(Some(before + word + after)) == (lower(word) == "1"@ || lower(word) == "true"@
            || lower(word) == "yes"@ || lower(word) == "on"@),
        !truthy(Some(before)),
        !truthy(None),
{
    law_space_around_does_not_count(before, word, after);
    law_trim_of_blank(before);
    reveal_strlit("1");
    reveal_strlit("true");
    reveal_strlit("yes");
    reveal_strlit("on");
    assert(lower(trim(before)).len() == 0);
}

/// The verbosity is the number that is set, where that is one of eight bits; else it is 0.
pub proof fn law_verbosity(n: nat, text: Seq<char>)
    ensures
        n <= 255 ==> verbosity_of(Some(decimal(n))) == n,
        n > 255 ==> verbosity_of(Some(decimal(n))) == 0,
        verbosity_of(None) == 0,
        verbosity_of(Some(Seq::empty())) == 0,
        (exists|i: int|
            0 <= i < text.len() && !is_digit(#[trigger] text[i]) && !(i == 0 && text[i] == '+'))
            ==> verbosity_of(Some(text)) == 0,
{
    law_numbers(n, u8::MAX as nat, text);
}

/// Unicode is off where the setting is just `false` or `0`, and else on.
pub proof fn law_unicode(text: Seq<char>)
    ensures
        unicode_of(None),
        unicode_of(Some(text)) == !(text == seq!['f', 'a', 'l', 's', 'e'] || text == seq!['0']),
{
    reveal_strlit("false");
    reveal_strlit("0");
    assert("false"@ =~= seq!['f', 'a', 'l', 's', 'e']);
    assert("0"@ =~= seq!['0']);
}

/// The timeout is the number of milliseconds that is set, with any white space around it; where
/// none is set, or what is set is no number, it is five seconds.
pub proof fn law_timeout(before: Seq<char>, n: nat, after: Seq<char>, text: Seq<char>)
    requires
        all_space(before),
        all_space(after),
    ensures
        n <= u64::MAX ==> timeout_setting(Some(before + decimal(n) + after)) == n,
        n > u64::MAX ==> timeout_setting(Some(before + decimal(n) + after)) == 5000,
        timeout_setting(None) == 5000,
        timeout_setting(Some(before)) == 5000,
        text.len() > 0 && !is_space(text[0]) && !is_space(text.last()) && (exists|i: int|
            0 <= i < text.len() && !is_digit(#[trigger] text[i]) && !(i == 0 && text[i] == '+'))
            ==> timeout_setting(Some(before + text + after)) == 5000,
{
    lemma_decimal_round_trip(n);
    assert(is_digit(decimal(n)[0]) && is_digit(decimal(n).last()));
    law_space_around_does_not_count(before, decimal(n), after);
    law_trim_of_blank(before);
    assert(trim(before) =~= Seq::empty());
    law_numbers(n, u64::MAX as nat, text);
    if text.len() > 0 && !is_space(text[0]) && !is_space(text.last()) {
        law_space_around_does_not_count(before, text, after);
    }
}

/// A setting counts without the white space around it, and a blank one does not.
pub proof fn law_trimmed(before: Seq<char>, text: Seq<char>, after: Seq<char>)
    requires
        all_space(before),
        all_space(after),
        text.len() > 0,
        !is_space(text[0]),
        !is_space(text.last()),
    ensures
        trimmed(Some(before + text + after)) == Some(text),
        trimmed(Some(before)) is None,
        trimmed(None) is None,
{
    law_space_around_does_not_count(before, text, after);
    law_trim_of_blank(before);
}

/// A list in a setting is what stands between its commas, in its order, without the white space
/// around each and without what is blank.
pub proof fn law_listed(a: Seq<char>, b: Seq<char>, name: Seq<char>)
    requires
        !name.contains(','),
    ensures
        listed(None) == Seq::<Seq<char>>::empty(),
        listed(Some(name)) == (if trim(name).len() > 0 {
            seq![trim(name)]
        } else {
            seq![]
        }),
        listed(Some(a + seq![','] + b)) == listed(Some(a)) + listed(Some(b)),
{
    let shorten = |s: Seq<char>| trim(s);
    let keep = |s: Seq<char>| s.len() > 0;
    lemma_find_char(name, ',');
    let one = seq![trim(name)];
    assert(split(name, ',') =~= seq![name]);
    assert(split(name, ',').map_values(shorten) =~= one);
    reveal_with_fuel(Seq::filter, 2);
    assert(one.drop_last() =~= seq![]);
    assert(one.last() == trim(name));
    assert(one.filter(keep) =~= (if trim(name).len() > 0 {
        one
    } else {
        seq![]
    }));
    lemma_split_sum(a, b, ',');
    let left = split(a, ',').map_values(shorten);
    let right = split(b, ',').map_values(shorten);
    assert((split(a, ',') + split(b, ',')).map_values(shorten) =~= left + right);
    Seq::filter_distributes_over_add(left, right, keep);
}

// ---- Which plugins are loaded --------------------------------------------------

/// The languages of a plugin fit where it has none, where the wrapped server has none, and else
/// just where one of the plugin's, lowered, is one of the server's.
pub proof fn law_languages(plugin: Seq<Seq<char>>, process: Seq<Seq<char>>, i: int, j: int)
    ensures
        plugin.len() == 0 || process.len() == 0 ==> languages_fit(plugin, process),
        0 <= i < plugin.len() && 0 <= j < process.len() && lower(plugin[i]) == process[j]
            ==> languages_fit(plugin, process),
        plugin.len() > 0 && process.len() > 0 && languages_fit(plugin, process) ==> exists|
            a: int,
            b: int,
        |
            0 <= a < plugin.len() && 0 <= b < process.len() && lower(#[trigger] plugin[a])
                == #[trigger] process[b],
{
    if 0 <= i < plugin.len() && 0 <= j < process.len() && lower(plugin[i]) == process[j] {
        assert(process.contains(lower(plugin[i])));
        assert(one_listed(plugin, process));
    }
    if plugin.len() > 0 && process.len() > 0 && languages_fit(plugin, process) {
        let a = choose|a: int|
            0 <= a < plugin.len() && process.contains(lower(#[trigger] plugin[a]));
        let b = choose|b: int| 0 <= b < process.len() && process[b] == lower(plugin[a]);
        assert(lower(plugin[a]) == process[b]);
    }
}

/// A plugin is meant for the wrapped server where it names no server, where the server has no
/// id, and else just where one of those it names, lowered, is the server's.
pub proof fn law_servers(plugin: Seq<Seq<char>>, id: Seq<char>, i: int)
    ensures
        servers_fit(plugin, None),
        servers_fit(Seq::empty(), Some(id)),
        0 <= i < plugin.len() && lower(plugin[i]) == id ==> servers_fit(plugin, Some(id)),
        plugin.len() > 0 && (forall|k: int| 0 <= k < plugin.len() ==> lower(#[trigger] plugin[k])
            != id) ==> !servers_fit(plugin, Some(id)),
{
}

/// A plugin is loaded just where no manifest of its name was seen, and its languages and its
/// servers fit. A manifest that was looked at is seen, whatever became of it, and those that
/// were seen before still are.
pub proof fn law_admitted(
    seen: Seq<Seq<char>>,
    manifest: PluginManifest,
    languages: Seq<Seq<char>>,
    server_id: Option<Seq<char>>,
    other: Seq<char>,
)
    ensures
        (admission(seen, manifest, languages, server_id) is Load) == (!seen.contains(
            manifest.name@,
        ) && languages_fit(texts(manifest.languages@), languages) && servers_fit(
            texts(manifest.language_servers@),
            server_id,
        )),
        (admission(seen, manifest, languages, server_id) is Duplicate) == seen.contains(
            manifest.name@,
        ),
        (admission(seen, manifest, languages, server_id) is OtherLanguage) == (!seen.contains(
            manifest.name@,
        ) && !languages_fit(texts(manifest.languages@), languages)),
        seen_after(seen, manifest.name@).contains(manifest.name@),
        other != manifest.name@ ==> seen_after(seen, manifest.name@).contains(other)
            == seen.contains(other),
{
    let name = manifest.name@;
    let now = seen_after(seen, name);
    if !seen.contains(name) {
        assert(now[seen.len() as int] == name);
        if seen.contains(other) {
            let i = choose|i: int| 0 <= i < seen.len() && seen[i] == other;
            assert(now[i] == other);
        }
        if now.contains(other) && other != name {
            let i = choose|i: int| 0 <= i < now.len() && now[i] == other;
            assert(seen[i] == other);
        }
    }
}

// ---- Where plugins are looked for ----------------------------------------------

/// Each directory is looked into once: what is listed is one of those given and not empty, no
/// two that are listed are the same path, and every one that was given is the same path as one
/// that is listed.
pub proof fn law_each_directory_once(dirs: Seq<Seq<char>>)
    ensures
        forall|i: int|
            0 <= i < each_once(dirs).len() ==> (#[trigger] each_once(dirs)[i]).len() > 0
                && dirs.contains(each_once(dirs)[i]),
        forall|i: int, j: int|
            0 <= i < j < each_once(dirs).len() ==> components(#[trigger] each_once(dirs)[i])
                != components(#[trigger] each_once(dirs)[j]),
        forall|k: int|
            0 <= k < dirs.len() && (#[trigger] dirs[k]).len() > 0 ==> same_path_in(
                each_once(dirs),
                dirs[k],
            ),
    decreases dirs.len(),
{
    if dirs.len() > 0 {
        let front = dirs.drop_last();
        let last = dirs.last();
        law_each_directory_once(front);
        let before = each_once(front);
        let all = each_once(dirs);
        assert forall|i: int| 0 <= i < all.len() implies (#[trigger] all[i]).len() > 0
            && dirs.contains(all[i]) by {
            if i < before.len() {
                assert(all[i] == before[i]);
                assert(front.contains(before[i]));
                let k = choose|k: int| 0 <= k < front.len() && front[k] == before[i];
                assert(dirs[k] == before[i]);
            } else {
                assert(dirs[dirs.len() - 1] == last);
            }
        }
        assert forall|i: int, j: int| 0 <= i < j < all.len() implies components(
            #[trigger] all[i],
        ) != components(#[trigger] all[j]) by {
            assert(all[i] == before[i]);
            if j < before.len() {
                assert(all[j] == before[j]);
            } else {
                assert(components(before[i]) != components(last));
            }
        }
        assert forall|k: int| 0 <= k < dirs.len() && (#[trigger] dirs[k]).len()
            > 0 implies same_path_in(all, dirs[k]) by {
            if k < front.len() {
                assert(front[k] == dirs[k]);
                assert(same_path_in(before, front[k]));
                let i = choose|i: int|
                    0 <= i < before.len() && components(#[trigger] before[i]) == components(
                        dirs[k],
                    );
                assert(all[i] == before[i]);
            } else if same_path_in(before, last) {
                let i = choose|i: int|
                    0 <= i < before.len() && components(#[trigger] before[i]) == components(last);
                assert(all[i] == before[i]);
            } else {
                assert(all[before.len() as int] == last);
            }
        }
    }
}

/// What comes first is looked into first: more directories at the end add to the end.
pub proof fn law_earlier_directories_first(dirs: Seq<Seq<char>>, more: Seq<Seq<char>>)
    ensures
        each_once(dirs + more).len() >= each_once(dirs).len(),
        each_once(dirs + more).take(each_once(dirs).len() as int) == each_once(dirs),
        more.len() == 1 && more[0].len() > 0 && !same_path_in(each_once(dirs), more[0])
            ==> each_once(dirs + more) == each_once(dirs).push(more[0]),
    decreases more.len(),
{
    if more.len() == 0 {
        assert(dirs + more =~= dirs);
    } else {
        assert((dirs + more).drop_last() =~= dirs + more.drop_last());
        assert((dirs + more).last() == more.last());
        law_earlier_directories_first(dirs, more.drop_last());
        let n = each_once(dirs).len() as int;
        let before = each_once(dirs + more.drop_last());
        assert(each_once(dirs + more).take(n) =~= before.take(n));
        if more.len() == 1 {
            assert(dirs + more.drop_last() =~= dirs);
        }
    }
}

/// The user's plugins lie below the home directory; and a server is looked for under its own
/// name first, then where Rust's tools put it below the home directory.
pub proof fn law_places(server: Seq<char>, home: Seq<char>, i: int)
    ensures
        user_plugins(Some(home)) == home + "/.config/potemkin/plugins"@,
        user_plugins(None) == "./.config/potemkin/plugins"@,
        candidates(server, Some(home)).len() == 4,
        candidates(server, Some(home))[0] == server,
        candidates(server, Some(home))[1] == home + "/.cargo/bin/"@ + server,
        candidates(server, None) == candidates(server, Some("/tmp"@)),
        1 <= i < 4 ==> {
            let at = candidates(server, Some(home))[i];
            &&& at.len() > home.len() + server.len()
            &&& at.take(home.len() as int) == home
            &&& at.skip(at.len() - server.len()) == server
        },
{
    reveal_strlit(".");
    reveal_strlit("/.config/potemkin/plugins");
    reveal_strlit("./.config/potemkin/plugins");
    reveal_strlit("/.cargo/bin/");
    reveal_strlit("/.rustup/toolchains/stable-aarch64-apple-darwin/bin/");
    reveal_strlit("/.rustup/toolchains/stable-x86_64-unknown-linux-gnu/bin/");
    assert("."@ + "/.config/potemkin/plugins"@ =~= "./.config/potemkin/plugins"@);
    if 1 <= i < 4 {
        let at = candidates(server, Some(home))[i];
        assert(at.take(home.len() as int) =~= home);
        assert(at.skip(at.len() - server.len()) =~= server);
    }
}

} // verus!
