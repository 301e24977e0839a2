//! The ANSI art logos shown at start-up.
use vstd::prelude::*;

use rand::Rng;

verus! {

/// The diamond logo, in colour, with the BitchX name.
pub const LOGO_DIAMOND: &'static str = "\x1b[40m\n::::::::::::::::::::::::::::::::::::::::::::::::::::::::::::::::::::::::::::::\n:::\x1b[1;31m:.\x1b[0m.\x1b[1;31m.\x1b[14C\x1b[0m.\x1b[1;35m.:\x1b[0m:::::::::::::::::\x1b[1;31m:.\x1b[0m.\x1b[14C\x1b[1;35m.\x1b[0m.\x1b[1;35m.:\x1b[0m:::::::::::::::::\n:::::::\x1b[1;31m:.\x1b[11C\x1b[35m:\x1b[0m:::::::::::::::::::::::\x1b[1;31m:\x1b[11C\x1b[35m.:\x1b[0m:::::::::::::::::::::\n:::::::::\x1b[1;31m:.\x1b[10C\x1b[35m`:\x1b[0m:::::::::::::::::::\x1b[1;31m:'\x1b[10C\x1b[35m.:\x1b[0m:::\x1b[1;31m:\"\x1b[0m`````````````````\"\n:::::::::::\x1b[1;31m:.\x1b[10C\x1b[35m`:\x1b[0m:::::::::::::::\x1b[1;31m:'\x1b[10C\x1b[35m.:\x1b[0m::::\x1b[1;31m: \x1b[35mB\x1b[0;35mitch\x1b[1mX \x1b[0mby \x1b[1;32mp\x1b[0;32manasync\x1b[36m!\n\x1b[37m:::::::::::::\x1b[1;31m:.\x1b[10C\x1b[35m`:\x1b[0m:::::::::::\x1b[1;31m:'\x1b[10C\x1b[35m.:\x1b[0m:::::::\x1b[1;31m:.\x1b[0m..................\n:::::::::::::::\x1b[1;31m:.\x1b[10C\x1b[35m`:\x1b[0m:::::::\x1b[1;31m:'\x1b[10C\x1b[35m.:\x1b[0m:::::::::::::::::::::::::::::\n::\x1b[1;31m:\"\x1b[0m\"````\"\x1b[1;35m\":\x1b[0m::\x1b[1;31m:'\x1b[36m.g$\x1b[0;36m$S\x1b[32m$'\x1b[6C\x1b[1;35m`:\x1b[0m:::\x1b[1;31m:'\x1b[11C\x1b[35m\":\x1b[0m::\x1b[1;31m:\"\x1b[0m\"```\x1b[1;35m\":\x1b[0m::::::::::::::::::::\n\x1b[1;31m'\x1b[36ms#S\x1b[0;36m$$$\"\x1b[1m$$\x1b[0;36mS#\x1b[32mn.\x1b[1;31m` \x1b[36m$$\x1b[0;36m$$\x1b[32mS\". \x1b[1;36ms#S\x1b[0;36m$$\x1b[32m$ \x1b[1;35m`\x1b[31m:'   \x1b[36m.g#\x1b[0;36mS$$\x1b[1m\"$\x1b[0;36m$S#\x1b[32mn. \x1b[1;36ms#S\x1b[0;36m$$\x1b[32m$ \x1b[1;35m`\x1b[0m\"\x1b[1;35m\":\x1b[0m::::::::::::::::\n \x1b[1;36m$$\x1b[0;36m$$$\x1b[32m$\x1b[1;36m_,$\x1b[0;36m$\x1b[32m$S'\x1b[1;30mrE\x1b[36m.g#\x1b[0;36mS$$\x1b[32m$ \x1b[1;36m$$\x1b[0;36m$$$$ss\x1b[32mn    \x1b[1;36m$$\x1b[0;36m$$$\x1b[32m$ \x1b[1;36m$\x1b[0;36m$$\x1b[32m$$$ \x1b[1;36m$$\x1b[0;36m$$$$\x1b[1m\"$\x1b[0;36m$S#\x1b[32mn.\x1b[1;35m`:\x1b[0m::::::::::::\n \x1b[1;36m$\x1b[0;36m$$$$\x1b[32m$\x1b[1;36m`\"$\x1b[0;36m$SSn\x1b[32m. \x1b[1;36m$$\x1b[0;36m$$$$\x1b[32m$ \x1b[1;36m$\x1b[0;36m$$$$\x1b[32m$ \x1b[1;36mgg#\x1b[0;36mS\x1b[32m$ \x1b[1;36m$\x1b[0;36m$$$$\x1b[32m$ \x1b[1;36mggg\x1b[0;36mgg\x1b[32mn \x1b[1;36m$\x1b[0;36m$$$$\x1b[32m$ \x1b[1;36m$\x1b[0;36m$$$$\x1b[32m$ \x1b[1;35m:\x1b[0m:\x1b[1;31m::\"\x1b[0m````````\n \x1b[1;36m$\x1b[0;36m$$$$\x1b[32m$  \x1b[1;36m$\x1b[0;36m$$$$\x1b[32m$ \x1b[1;36m$\x1b[0;36m$$$$$\x1b[32m$ \x1b[1;36m$\x1b[0;36m$$$$\x1b[32m$ \x1b[1;36m$$\x1b[0;36m$$\x1b[32m$ \x1b[1;36m$\x1b[0;36m$$$$\x1b[32m$ \x1b[1;36m$$\x1b[0;36m$$$\x1b[32m$ \x1b[1;36m$\x1b[0;36m$$$$\x1b[32m$ \x1b[1;36m$\x1b[0;36m$$$$\x1b[32m$ \x1b[1;35m:\x1b[0m:\x1b[1;31m: \x1b[37mG\x1b[0mreets \x1b[1mT\x1b[0mo\x1b[1;30m\n \x1b[36m$\x1b[0;36m$$$$\x1b[32m$  \x1b[1;36m$\x1b[0;36m$$$$\x1b[32m$ \x1b[1;36m$\x1b[0;36m$$$$$\x1b[32m$ \x1b[1;36m$\x1b[0;36m$$$$\x1b[32m$ \x1b[1;36m$\x1b[0;36m$$$\x1b[32m$ \x1b[1;36m$\x1b[0;36m$$$$\x1b[32m$ \x1b[1;36m$\x1b[0;36m$$$$\x1b[32m$ \x1b[1;36m$\x1b[0;36m$$$$\x1b[32m$ \x1b[1;36m$\x1b[0;36m$$$$\x1b[32m$ \x1b[1;35m:\x1b[0m:\x1b[1;31m: \x1b[36mT\x1b[0;36mrench\x1b[1;30m,\n \x1b[36m$\x1b[0;36m$$$$\x1b[32m$ \x1b[1;36m,$\x1b[0;36m$$$\x1b[32m$$ \x1b[1;36m$\x1b[0;36m$$$$\x1b[32m$$ \x1b[1;36m$\x1b[0;36m$$$$\x1b[32m$ \x1b[1;36m$\x1b[0;36m$$\x1b[32m$$ \x1b[1;36m$\x1b[0;36m$$$$\x1b[32m$ \x1b[1;36m$\x1b[0;36m$$$\x1b[32m$$ \x1b[1;36m$\x1b[0;36m$$$\x1b[32m$$ \x1b[1;36m$\x1b[0;36m$$$\x1b[32m$$ \x1b[1;35m:\x1b[0m:\x1b[1;31m: \x1b[36mL\x1b[0;36mifendel\x1b[1;30m,\n \x1b[36m$\x1b[0;36m$$$$$ss$$$\x1b[32m$S' \x1b[1;36m$\x1b[0;36m$$$\x1b[32m$$$ \x1b[1;36m`S\x1b[0;36m$$$$s$$\x1b[32m$S' \x1b[1;36m`S\x1b[0;36m$$$$s$$$\x1b[32m$S' \x1b[1;36m$\x1b[0;36m$$\x1b[32m$$$ \x1b[1;36m$\x1b[0;36m$$\x1b[32m$$$ \x1b[1;35m:\x1b[0m:\x1b[1;31m: \x1b[36mJ\x1b[0;36mondala\x1b[1mR\x1b[30m,\n\x1b[31m.\x1b[0m............\x1b[1;35m.:\x1b[31m:\x1b[11C\x1b[35m.\x1b[0m......\x1b[1;35m.:\x1b[31m:.\x1b[11C\x1b[35m:\x1b[31m:.\x1b[0m.....\x1b[1;31m:\x1b[0m.......\x1b[1;35m:\x1b[0m:\x1b[1;31m: \x1b[36mZ\x1b[0;36mircon\x1b[1;30m,\n\x1b[0m:::::::::::::\x1b[1;31m:'\x1b[10C\x1b[35m.:\x1b[0m:::::::::::\x1b[1;31m:.\x1b[10C\x1b[35m`:\x1b[0m::::::\x1b[1;31m:\"\x1b[0m``````\x1b[1;31m`' \x1b[36mO\x1b[0;36mtiluke\x1b[1;30m,\n\x1b[0m:::::::::::\x1b[1;31m:'\x1b[10C\x1b[35m.:\x1b[0m:::::::::::::::\x1b[1;31m:.\x1b[10C\x1b[35m`:\x1b[0m:::\x1b[1;31m: \x1b[36mH\x1b[0;36mappy\x1b[1mC\x1b[0;36mrappy\x1b[1;30m, \x1b[36mY\x1b[0;36mak\x1b[1;30m,\n\x1b[0m:::::::::\x1b[1;31m:'\x1b[10C\x1b[35m.:\x1b[0m:::::::::::::::::::\x1b[1;31m:.\x1b[10C\x1b[35m`:\x1b[0m:\x1b[1;31m: \x1b[36mM\x1b[0;36masonry\x1b[1;30m, \x1b[36mB\x1b[0;36muddha\x1b[1mX\x1b[30m..\n\x1b[0m:::::::\x1b[1;31m:'\x1b[11C\x1b[35m:\x1b[0m:::::::::::::::::::::::\x1b[1;31m:\x1b[11C\x1b[35m`:\x1b[31m:.\x1b[0m...................\n:::\x1b[1;31m:\"\x1b[0m\"\x1b[1;31m'\x1b[14C\x1b[0m`\x1b[1;35m\":\x1b[0m:::::::::::::::::\x1b[1;31m:\"\x1b[0m'\x1b[14C\x1b[1;35m`\x1b[0m\"\x1b[1;35m\":\x1b[0m:::::::::::::::::\n::::::::::::::::::::::::::::::::::::::::::::::::::::::::::::::::::::::::::::::\x1b[0m\n\x1b[0m\n";

/// The acidjazz logo: plain characters between a colour reset at each end.
pub const LOGO_ACIDJAZZ: &'static str = "\x1b[40m\n                                                                   ,\n                                           .                     ,$\n                 .                                              ,$'\n                                           .        .          ,$'\n                 :      ,g$p,              .         $,       ,$'\n               y&$       `\"` .,.           $&y       `$,     ,$'\n               $$$     o oooy$$$yoo o      $$$        `$,   ,$' -acidjazz\n         .     $$$%%yyyp, gyp`$$$'gyyyyyyp, $$$yyyyp,   `$, ,$'     .\n       . yxxxx $$$\"`\"$$$ $$$ $$$ $y$\"`\"$$$ $$$\"`\"$$$ xxx`$,$'xxxxxxy .\n         $     $$7   l$$ $$$ $$$ $$7   \"\"\" $$7   ly$     .$'       $\n         $     $$b   dy$ $$$ $y$ $$b   $$$ $$b   d$$    ,$`$,      $\n       . $xxxx $$$uuu$$$ $$$ $$$ $$$uuu$$$ $$$   $$$ x ,$'x`$, xxxx$ .\n         .           \"\"\" \"\"\" \"\"\"       \"\"\"       \"\"\"  ,$'   `$,    .\n           b i t c h    -      x                     ,$'     `$,\n                                                     $'       `$,\n                                                    '          `$,\n                                                                `$,\n                                                                 `$\n                                                                   `\n\x1b[0m\n";

/// The minimal logo, underlined, in magenta.
pub const LOGO_MINIMAL: &'static str = "\x1b[40m\n\x1b[8C\x1b[1;35m________\x1b[0m\x1b[9C\x1b[1;30m   \x1b[35m________ \x1b[0m\x1b[8C\x1b[1;35m________\x1b[30m \x1b[0m   \x1b[1;30m \x1b[0m\x1b[4C\x1b[1;35m________\n\x1b[0m\x1b[8C\x1b[1;35m\\\x1b[0m\x1b[6C\x1b[1;35m//___________\\\x1b[0m\x1b[6C\x1b[1;35m/________\\\\\x1b[0m\x1b[6C\x1b[1;35m/_________\\_\x1b[0m\x1b[5C\x1b[1;35m//\n\x1b[0m\x1b[6C\x1b[1;35m___\x1b[0;35m\\\x1b[37m \x1b[1;30m \x1b[0m \x1b[1;30m \x1b[0;35m___\x1b[37m   \x1b[35m_________\x1b[1;30m \x1b[0m\x1b[4C\x1b[35m__\x1b[37m\x1b[5C\x1b[35m_______\x1b[37m\x1b[8C\x1b[1;30m \x1b[0;35m\\\x1b[37m\x1b[5C\x1b[35m/\x1b[37m\x1b[4C\x1b[35m/\n\x1b[37m\x1b[8C\x1b[35m<<_____\x1b[1;30m \x1b[0m\x1b[4C\x1b[35m\\\\\x1b[1;30m \x1b[0m\x1b[4C\x1b[1;30m \x1b[0;35m/\x1b[37m\x1b[6C\x1b[35m> \x1b[37m\x1b[4C\x1b[35m\\\x1b[37m   \x1b[1;30m \x1b[0m \x1b[35m/____\\\x1b[1;30m  \x1b[0m   \x1b[35m>>\x1b[37m\x1b[8C\x1b[35m\\\x1b[1;35m ___\n\x1b[0m\x1b[6C\x1b[1;30m____\x1b[0m\x1b[4C\x1b[1;30m/______\\_____<<_____//___________>>  /_______\\\x1b[0m   \x1b[1;30m/_____>>sm\n\x1b[0m\x1b[8C\x1b[1;30m<<___________\x1b[0m\x1b[7C\x1b[1;30m  \x1b[0m bitchx by panasync\x1b[7C\x1b[1;30m /______\\\\\x1b[0m   \x1b[1;30m____\n\x1b[0m\x1b[20C\x1b[1;30m/------------------------------------------------\\\\\n\n\n\x1b[0m\n";

/// The logos to choose from.
pub const LOGOS: [&'static str; 3] = [LOGO_DIAMOND, LOGO_ACIDJAZZ, LOGO_MINIMAL];

/// A number below `n` from the thread's random generator:
/// `rand::thread_rng().gen_range(0..n)`. Nothing else is stated of it.
#[verifier::external_body]
fn random_below(n: usize) -> (r: usize)
    requires
        n > 0,
    ensures
        r < n,
{
    rand::thread_rng().gen_range(0..n)
}

/// One of the logos, picked at random.
pub fn random_logo() -> (r: &'static str)
    ensures
        r == LOGO_DIAMOND || r == LOGO_ACIDJAZZ || r == LOGO_MINIMAL,
{
    let idx = random_below(3);
    if idx == 0 {
        LOGO_DIAMOND
    } else if idx == 1 {
        LOGO_ACIDJAZZ
    } else {
        LOGO_MINIMAL
    }
}

} // verus!
