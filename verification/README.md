# hyprsheep

A desktop sheep for Hyprland. It wanders around the screen, walks along the
top edges of windows, climbs their sides, falls when the window it was standing
on closes, and occasionally stops for a nap.

The library under `src/` is written in Verus: everything the sheep decides is
stated in contracts and proved. It computes from plain values only. Talking to
the compositor, reading files and waiting for time to pass is the business of
the program under `app/`.

## How it works

The behaviour is data. A pet file holds a graph of animations, each with its
frames, its velocity and weighted lists of animations it may move to next.
Three tables decide what happens after every step: `<sequence>` when an
animation runs to completion, `<border>` on hitting a screen edge or landing on
a window, and `<gravity>` when there is nothing underfoot. Velocities ramp
across the sequence, which is why falling accelerates without any physics code.

## Layout

| module | what it holds |
| --- | --- |
| `number`, `fixed`, `dice` | the numbers the sheep is measured in, and chance |
| `text`, `xml`, `jsondoc`, `json`, `base64` | reading what files and replies are written in |
| `expr`, `anim`, `petfile` | expressions, animations and pet files |
| `world`, `sheep`, `senses`, `step` | the desktop and the life of a sheep on it |
| `flock`, `refresh`, `mouse` | who is due when, who comes and goes, the mouse, redrawing |
| `sprites`, `blit` | sprite sheets and drawing |
| `config`, `hypr` | settings, and the compositor's replies |
| `laws`, `pace`, `manners`, `tossing`, `herding` | what holds of every sheep and every flock |

Positions and sizes are of a type of the host's choosing that implements
`Number`. What is proved holds of every type of numbers that does what `Number`
says of it. `Fixed`, which keeps ten places after the point, is proved to. The
program brings the machine's floating-point numbers, in `app/float.rs`, and
those are not proved to: for them the contracts hold as far as the functions
there do what `Number` says.

The built-in sheep is read from `/usr/share/hyprsheep`: `animations.xml` and
`esheep-sprites.png`.
